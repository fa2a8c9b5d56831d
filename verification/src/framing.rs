//! The response-framing state machine: one exchange's reads are accumulated
//! until the buffer ends with the success marker or the failure marker, both
//! of which may arrive split across any number of reads.
use vstd::prelude::*;

use crate::parse::extend_bytes;
use crate::{ends_with, Error, ErrorModel, CR, LF};

verus! {

/// The success marker that terminates a response: carriage return, line
/// feed, `OK`, carriage return, line feed.
pub open spec fn ok_marker() -> Seq<u8> {
    seq![CR, LF, 79u8, 75u8, CR, LF]
}

/// The failure marker that terminates a response: carriage return, line
/// feed, `ERROR`, carriage return, line feed.
pub open spec fn error_marker() -> Seq<u8> {
    seq![CR, LF, 69u8, 82u8, 82u8, 79u8, 82u8, CR, LF]
}

/// What one feeding step yields, at the level of byte sequences.
pub enum FeedModel {
    /// Neither marker has arrived yet; keep reading.
    Incomplete,
    /// The success marker arrived; carries the body with the marker stripped.
    Complete(Seq<u8>),
    /// The exchange is over without a body: the transport produced nothing,
    /// or the remote side answered with the failure marker.
    Failed(ErrorModel),
}

/// What feeding `chunk` to an accumulator holding `acc` yields. A read that
/// produced no bytes is a transport failure carrying what had accumulated;
/// otherwise the joined buffer is checked for a trailing marker, success
/// first.
pub open spec fn feed_outcome(acc: Seq<u8>, chunk: Seq<u8>) -> FeedModel {
    let joined = acc + chunk;
    if chunk.len() == 0 {
        FeedModel::Failed(ErrorModel::InvalidResponse(joined))
    } else if ends_with(joined, ok_marker()) {
        FeedModel::Complete(joined.take(joined.len() - ok_marker().len()))
    } else if ends_with(joined, error_marker()) {
        FeedModel::Failed(ErrorModel::Protocol(joined))
    } else {
        FeedModel::Incomplete
    }
}

/// The accumulator contents after a feeding step: the joined buffer while
/// the response is still incomplete, and empty once the exchange ended.
pub open spec fn feed_rest(acc: Seq<u8>, chunk: Seq<u8>) -> Seq<u8> {
    match feed_outcome(acc, chunk) {
        FeedModel::Incomplete => acc + chunk,
        FeedModel::Complete(_) => Seq::empty(),
        FeedModel::Failed(_) => Seq::empty(),
    }
}

/// Result of feeding one read's bytes to an [`Accumulator`].
#[derive(Debug, PartialEq, Eq)]
pub enum FeedResult {
    /// Neither marker has arrived yet; keep reading.
    Incomplete,
    /// The success marker arrived; holds the response body, marker stripped.
    Complete(Vec<u8>),
    /// The exchange failed; holds the error to surface.
    Failed(Error),
}

impl DeepView for FeedResult {
    type V = FeedModel;

    open spec fn deep_view(&self) -> FeedModel {
        match self {
            FeedResult::Incomplete => FeedModel::Incomplete,
            FeedResult::Complete(b) => FeedModel::Complete(b@),
            FeedResult::Failed(e) => FeedModel::Failed(e.deep_view()),
        }
    }
}

/// Accumulates the bytes read during one exchange and watches the buffer's
/// tail for the terminating markers. Its view is the accumulated bytes.
pub struct Accumulator {
    buf: Vec<u8>,
}

impl View for Accumulator {
    type V = Seq<u8>;

    closed spec fn view(&self) -> Seq<u8> {
        self.buf@
    }
}

impl Accumulator {
    /// Creates an empty accumulator, ready for one exchange.
    pub fn new() -> (r: Self)
        ensures
            r@ == Seq::<u8>::empty(),
    {
        Accumulator { buf: Vec::new() }
    }

    /// Feeds the bytes of one transport read. The markers are checked
    /// against the joined buffer's tail on every call, so a marker split
    /// across reads is still recognised.
    pub fn feed(&mut self, chunk: &[u8]) -> (r: FeedResult)
        ensures
            r.deep_view() == feed_outcome(old(self)@, chunk@),
            final(self)@ == feed_rest(old(self)@, chunk@),
    {
        if chunk.len() == 0 {
            let mut out: Vec<u8> = Vec::new();
            core::mem::swap(&mut out, &mut self.buf);
            proof {
                assert(out@ + chunk@ =~= out@);
            }
            return FeedResult::Failed(Error::InvalidResponse(out));
        }
        extend_bytes(&mut self.buf, chunk);
        if ends_with_ok(&self.buf) {
            let n = self.buf.len() - 6;
            self.buf.truncate(n);
            let mut out: Vec<u8> = Vec::new();
            core::mem::swap(&mut out, &mut self.buf);
            FeedResult::Complete(out)
        } else if ends_with_error(&self.buf) {
            let mut out: Vec<u8> = Vec::new();
            core::mem::swap(&mut out, &mut self.buf);
            FeedResult::Failed(Error::Protocol(out))
        } else {
            FeedResult::Incomplete
        }
    }
}

/// True when `v` ends with the success marker.
fn ends_with_ok(v: &Vec<u8>) -> (r: bool)
    ensures
        r == ends_with(v@, ok_marker()),
{
    if v.len() < 6 {
        return false;
    }
    let n = v.len();
    let r = v[n - 6] == CR && v[n - 5] == LF && v[n - 4] == 79 && v[n - 3] == 75 && v[n - 2] == CR
        && v[n - 1] == LF;
    proof {
        let t = v@.skip(n - 6);
        assert(t.len() == 6);
        assert forall|i: int| 0 <= i < 6 implies t[i] == v@[n - 6 + i] by {}
        if r {
            assert(t =~= ok_marker());
        } else {
            if ends_with(v@, ok_marker()) {
                assert(t[0] == CR && t[1] == LF && t[2] == 79 && t[3] == 75 && t[4] == CR && t[5]
                    == LF);
            }
        }
    }
    r
}

/// True when `v` ends with the failure marker.
fn ends_with_error(v: &Vec<u8>) -> (r: bool)
    ensures
        r == ends_with(v@, error_marker()),
{
    if v.len() < 9 {
        return false;
    }
    let n = v.len();
    let r = v[n - 9] == CR && v[n - 8] == LF && v[n - 7] == 69 && v[n - 6] == 82 && v[n - 5] == 82
        && v[n - 4] == 79 && v[n - 3] == 82 && v[n - 2] == CR && v[n - 1] == LF;
    proof {
        let t = v@.skip(n - 9);
        assert(t.len() == 9);
        assert forall|i: int| 0 <= i < 9 implies t[i] == v@[n - 9 + i] by {}
        if r {
            assert(t =~= error_marker());
        } else {
            if ends_with(v@, error_marker()) {
                assert(t[0] == CR && t[1] == LF && t[2] == 69 && t[3] == 82 && t[4] == 82 && t[5]
                    == 79 && t[6] == 82 && t[7] == CR && t[8] == LF);
            }
        }
    }
    r
}

/// Marker recognition does not depend on how the bytes are split across
/// reads: after a feed that stayed incomplete, feeding the next chunk
/// yields exactly what feeding the concatenation at once would have.
pub proof fn lemma_feed_split(acc: Seq<u8>, c1: Seq<u8>, c2: Seq<u8>)
    requires
        c1.len() > 0,
        c2.len() > 0,
        feed_outcome(acc, c1) == FeedModel::Incomplete,
    ensures
        feed_outcome(feed_rest(acc, c1), c2) == feed_outcome(acc, c1 + c2),
        feed_rest(feed_rest(acc, c1), c2) == feed_rest(acc, c1 + c2),
{
    assert((acc + c1) + c2 =~= acc + (c1 + c2));
}

/// A buffer ending in the failure marker always aborts the exchange with a
/// protocol failure carrying the full accumulated text: it is never handed
/// on as a successful body.
pub proof fn lemma_error_marker_aborts(acc: Seq<u8>, chunk: Seq<u8>)
    requires
        chunk.len() > 0,
        ends_with(acc + chunk, error_marker()),
    ensures
        feed_outcome(acc, chunk) == FeedModel::Failed(ErrorModel::Protocol(acc + chunk)),
{
    let joined = acc + chunk;
    if ends_with(joined, ok_marker()) {
        let n = joined.len();
        let t6 = joined.skip(n - 6);
        let t9 = joined.skip(n - 9);
        assert(t6[3] == joined[n - 3]);
        assert(t9[6] == joined[n - 3]);
        assert(t6[3] == ok_marker()[3]);
        assert(t9[6] == error_marker()[6]);
        assert(false);
    }
}

} // verus!
