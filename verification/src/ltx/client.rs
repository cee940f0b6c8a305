//! State of an LTX client.
//!
//! Requests wait in the order they were sent. Every frame of the peer is fed
//! to the waiting requests in that order, and the replies are kept until
//! they are collected under the ids of their requests. The first failure is
//! kept and ends the connection.

use crate::errors;
use crate::errors::ErrorView;
use crate::errors::KirkError;
use crate::ltx::request;
use crate::ltx::request::Reply;
use crate::ltx::request::ReplyView;
use crate::ltx::request::Request;
use crate::ltx::request::RequestView;
use crate::ltx::wire;
use crate::ltx::wire::Field;
use crate::ltx::wire::FieldView;
use crate::text;
use std::collections::HashMap;
use vstd::prelude::*;

verus! {

/// Maximum buffered-but-undecoded bytes.
pub const MAX_BUFFERED_BYTES: usize = 8388608;

/// A request that waits for its reply.
#[derive(Debug)]
pub struct Pending {
    /// Id the reply is kept under.
    pub id: u64,
    /// The request and how far it has come.
    pub request: Request,
}

/// Multiplexes requests over a pair of files.
#[derive(Debug)]
pub struct Ltx {
    infile: String,
    outfile: String,
    pending: Vec<Pending>,
    replies: HashMap<u64, Reply>,
    next_id: u64,
    fatal: Option<String>,
    running: bool,
    buffered: Vec<u8>,
    streamed: Vec<(u64, String)>,
}

/// What a client holds.
#[verifier::ext_equal]
pub struct LtxView {
    /// Path that requests are written to.
    pub infile: Seq<char>,
    /// Path that frames are read from.
    pub outfile: Seq<char>,
    /// Waiting requests with their ids, in the order they were sent.
    pub pending: Seq<(u64, RequestView)>,
    /// Replies that wait to be collected.
    pub replies: Map<u64, ReplyView>,
    /// Id of the next request.
    pub next_id: u64,
    /// First failure.
    pub fatal: Option<Seq<char>>,
    /// Whether frames are being read.
    pub running: bool,
    /// Bytes read that are no whole frame yet.
    pub buffered: Seq<u8>,
    /// Stdout chunks to stream, with the ids of their requests, in order.
    pub streamed: Seq<(u64, Seq<char>)>,
}

/// Views of chunks with their ids.
pub open spec fn chunk_views(v: Seq<(u64, String)>) -> Seq<(u64, Seq<char>)> {
    v.map_values(|c: (u64, String)| (c.0, c.1@))
}

/// Chunks marked with the id of their request.
pub open spec fn marked(id: u64, chunks: Seq<Seq<char>>) -> Seq<(u64, Seq<char>)> {
    chunks.map_values(|c: Seq<char>| (id, c))
}

/// Ids and views of waiting requests.
pub open spec fn pending_views(v: Seq<Pending>) -> Seq<(u64, RequestView)> {
    v.map_values(|p: Pending| (p.id, p.request@))
}

/// Views of requests.
pub open spec fn request_views(v: Seq<Request>) -> Seq<RequestView> {
    v.map_values(|r: Request| r@)
}

/// Views of replies.
pub open spec fn reply_views(v: Seq<Reply>) -> Seq<ReplyView> {
    v.map_values(|r: Reply| r@)
}

impl View for Ltx {
    type V = LtxView;

    closed spec fn view(&self) -> LtxView {
        LtxView {
            infile: self.infile@,
            outfile: self.outfile@,
            pending: pending_views(self.pending@),
            replies: self.replies@.map_values(|r: Reply| r@),
            next_id: self.next_id,
            fatal: text::opt_text(self.fatal),
            running: self.running,
            buffered: self.buffered@,
            streamed: chunk_views(self.streamed@),
        }
    }
}

/// A client with `message` as its failure, unless it has one already.
pub open spec fn with_fatal(s: LtxView, message: Seq<char>) -> LtxView {
    match s.fatal {
        Some(_) => s,
        None => LtxView { fatal: Some(message), ..s },
    }
}

/// What feeding one frame to waiting requests comes to.
#[verifier::ext_equal]
pub struct Walk {
    /// Requests that still wait.
    pub kept: Seq<(u64, RequestView)>,
    /// Replies given, in order.
    pub given: Seq<(u64, ReplyView)>,
    /// Stdout chunks to stream, in order.
    pub chunks: Seq<(u64, Seq<char>)>,
    /// Failure that stopped the walk.
    pub error: Option<ErrorView>,
}

/// Feed a frame to each request in turn, up to the first failure.
pub open spec fn walk(todo: Seq<(u64, RequestView)>, msg: Seq<FieldView>) -> Walk
    decreases todo.len(),
{
    if todo.len() == 0 {
        Walk { kept: Seq::empty(), given: Seq::empty(), chunks: Seq::empty(), error: None }
    } else {
        let id = todo[0].0;
        let (after, out) = request::fed(todo[0].1, msg);
        let rest = walk(todo.drop_first(), msg);
        let chunks = marked(id, after.streamed) + rest.chunks;
        let left = RequestView { streamed: Seq::empty(), ..after };
        match out {
            request::Fed::Fail(e) => Walk {
                kept: todo,
                given: Seq::empty(),
                chunks: Seq::empty(),
                error: Some(e),
            },
            request::Fed::Reply(reply) => Walk {
                given: seq![(id, reply)] + rest.given,
                chunks,
                ..rest
            },
            request::Fed::Nothing => Walk { kept: seq![(id, left)] + rest.kept, chunks, ..rest },
        }
    }
}

/// Map with each of `given` stored under its id.
pub open spec fn with_replies(
    replies: Map<u64, ReplyView>,
    given: Seq<(u64, ReplyView)>,
) -> Map<u64, ReplyView>
    decreases given.len(),
{
    if given.len() == 0 {
        replies
    } else {
        with_replies(replies, given.drop_last()).insert(given.last().0, given.last().1)
    }
}

/// Detail of an `ERROR` frame.
pub open spec fn error_detail(msg: Seq<FieldView>) -> Seq<char> {
    if msg.len() > 1 {
        match wire::text_in(msg[1]) {
            Ok(s) => s,
            Err(_) => "unknown LTX error"@,
        }
    } else {
        "unknown LTX error"@
    }
}

/// A client after one frame.
pub open spec fn dispatched(s: LtxView, msg: Seq<FieldView>) -> LtxView {
    if msg.len() == 0 {
        s
    } else {
        match request::frame_opcode_of(msg) {
            None => with_fatal(s, "LTX error: message opcode must be an integer"@),
            Some(op) => if op == request::OP_ERROR {
                with_fatal(s, "LTX error: "@ + error_detail(msg))
            } else {
                let w = walk(s.pending, msg);
                let after = LtxView {
                    pending: w.kept,
                    replies: with_replies(s.replies, w.given),
                    streamed: s.streamed + w.chunks,
                    ..s
                };
                match w.error {
                    Some(e) => with_fatal(after, errors::error_text(e)),
                    None => after,
                }
            },
        }
    }
}

/// A client after all whole frames in its buffer, up to the first failure.
pub open spec fn drained(s: LtxView) -> LtxView
    decreases s.buffered.len(),
{
    match wire::frame_of(s.buffered) {
        wire::FrameStep::Short => s,
        wire::FrameStep::Bad(reason) => with_fatal(
            s,
            errors::error_text(wire::decode_error(reason)),
        ),
        wire::FrameStep::Whole(fields, used) => {
            proof {
                wire::frame_end(s.buffered);
            }
            let rest = LtxView { buffered: s.buffered.skip(used), ..s };
            let next = dispatched(rest, fields);
            if next.fatal is Some {
                next
            } else {
                drained(next)
            }
        },
    }
}

/// Sum that does not leave the range of `usize`.
pub open spec fn saturated(a: nat, b: nat) -> nat {
    if a + b > usize::MAX {
        usize::MAX as nat
    } else {
        a + b
    }
}

/// Why nothing was read from the output.
#[derive(Debug)]
pub enum ReadFailure {
    /// Waiting for the output failed.
    Wait(String),
    /// Reading the output failed.
    Read(String),
}

impl View for ReadFailure {
    type V = Seq<char>;

    open spec fn view(&self) -> Seq<char> {
        match *self {
            ReadFailure::Wait(reason) => "can't wait for LTX output: "@ + reason@,
            ReadFailure::Read(reason) => "can't read LTX output: "@ + reason@,
        }
    }
}

/// A client after one read: the bytes that came, or the reason why none did.
/// It goes on reading unless it has failed.
pub open spec fn polled(s: LtxView, read: Result<Seq<u8>, Seq<char>>) -> LtxView {
    let after = match read {
        Err(reason) => with_fatal(
            s,
            errors::error_text(ErrorView::Ltx(reason)),
        ),
        Ok(chunk) => {
            let total = saturated(s.buffered.len(), chunk.len());
            if chunk.len() == 0 {
                with_fatal(s, "LTX output closed"@)
            } else if total > MAX_BUFFERED_BYTES {
                with_fatal(
                    s,
                    "buffered "@ + text::decimal_text(total) + " bytes exceed "@
                        + text::decimal_text(MAX_BUFFERED_BYTES as nat) + " bytes"@,
                )
            } else {
                drained(LtxView { buffered: s.buffered + chunk, ..s })
            }
        },
    };
    LtxView { running: after.running && after.fatal is None, ..after }
}

/// Frames of requests in a row, in order.
pub open spec fn packed_requests(requests: Seq<RequestView>) -> Seq<u8>
    decreases requests.len(),
{
    if requests.len() == 0 {
        Seq::empty()
    } else {
        packed_requests(requests.drop_last()) + wire::packed_frame(
            request::request_fields(requests.last().ask),
        )
    }
}

/// `requests` with the ids from `first` on.
pub open spec fn numbered(first: u64, requests: Seq<RequestView>) -> Seq<(u64, RequestView)> {
    Seq::new(requests.len(), |i: int| ((first + i) as u64, requests[i]))
}

/// Replies of the given ids that are there, in order, and what is left.
pub open spec fn collected(
    replies: Map<u64, ReplyView>,
    ids: Seq<u64>,
) -> (Seq<ReplyView>, Map<u64, ReplyView>)
    decreases ids.len(),
{
    if ids.len() == 0 {
        (Seq::empty(), replies)
    } else {
        let (before, left) = collected(replies, ids.drop_last());
        if left.dom().contains(ids.last()) {
            (before.push(left[ids.last()]), left.remove(ids.last()))
        } else {
            (before, left)
        }
    }
}

/// Whether all replies of `ids` are there.
pub open spec fn all_there(replies: Map<u64, ReplyView>, ids: Seq<u64>) -> bool {
    replies.len() >= ids.len() && forall|i: int|
        0 <= i < ids.len() ==> replies.dom().contains(#[trigger] ids[i])
}

/// Whether the ids of a client are in order: handed out once each, waiting or
/// answered but not both.
pub open spec fn ids_in_order(s: LtxView) -> bool {
    &&& forall|i: int, j: int|
        0 <= i < j < s.pending.len() ==> (#[trigger] s.pending[i]).0 < (#[trigger] s.pending[j]).0
    &&& forall|i: int| 0 <= i < s.pending.len() ==> (#[trigger] s.pending[i]).0 < s.next_id
    &&& forall|id: u64| #[trigger] s.replies.dom().contains(id) ==> id < s.next_id
    &&& forall|i: int|
        0 <= i < s.pending.len() ==> !s.replies.dom().contains((#[trigger] s.pending[i]).0)
}

fn ltx_error(message: &str) -> (e: KirkError)
    ensures
        e@ == ErrorView::Ltx(message@),
{
    KirkError::Ltx(text::owned(message))
}

/// Error of a client that has failed, or that is not connected.
pub open spec fn link_error(s: LtxView) -> Option<ErrorView> {
    match s.fatal {
        Some(m) => Some(ErrorView::Ltx(m)),
        None => if !s.running {
            Some(ErrorView::Ltx("Client is not connected to LTX"@))
        } else {
            None
        },
    }
}

/// Error that refuses to send `count` requests.
pub open spec fn send_error(s: LtxView, count: nat) -> Option<ErrorView> {
    if count == 0 {
        Some(ErrorView::Ltx("No requests given"@))
    } else if !s.running {
        Some(ErrorView::Ltx("Client is not connected to LTX"@))
    } else {
        match s.fatal {
            Some(m) => Some(ErrorView::Ltx(m)),
            None => None,
        }
    }
}

/// Whether a client has ids left for `count` requests.
pub open spec fn ids_fit(s: LtxView, count: nat) -> bool {
    s.next_id + count <= u64::MAX
}

/// Error of requests for which the ids run out.
pub open spec fn id_overflow() -> ErrorView {
    ErrorView::Ltx("request id overflow"@)
}

/// Client with requests queued behind those that wait.
pub open spec fn queued(s: LtxView, requests: Seq<RequestView>) -> LtxView {
    LtxView {
        pending: s.pending + numbered(s.next_id, requests),
        next_id: (s.next_id + requests.len()) as u64,
        ..s
    }
}

/// Client after requests for which the ids ran out: those that still got one
/// are queued.
pub open spec fn overflowed(s: LtxView, requests: Seq<RequestView>) -> LtxView {
    queued(s, requests.take(u64::MAX - s.next_id))
}

/// Whether every request fits the length fields of its frame.
pub open spec fn all_fit(requests: Seq<RequestView>) -> bool {
    forall|i: int| 0 <= i < requests.len() ==> request::fits_frame((#[trigger] requests[i]).ask)
}

impl Ltx {
    /// Create an unconnected client for the given pair of files.
    pub fn new(infile: &str, outfile: &str) -> (r: Self)
        ensures
            r@ == (LtxView {
                infile: infile@,
                outfile: outfile@,
                pending: Seq::empty(),
                replies: Map::empty(),
                next_id: 0,
                fatal: None,
                running: false,
                buffered: Seq::empty(),
                streamed: Seq::empty(),
            }),
    {
        broadcast use vstd::std_specs::hash::group_hash_axioms;

        let r = Ltx {
            infile: infile.to_owned(),
            outfile: outfile.to_owned(),
            pending: Vec::new(),
            replies: HashMap::new(),
            next_id: 0,
            fatal: None,
            running: false,
            buffered: Vec::new(),
            streamed: Vec::new(),
        };
        assert(r@.streamed =~= Seq::<(u64, Seq<char>)>::empty());
        assert(r@.pending =~= Seq::<(u64, RequestView)>::empty());
        assert(r@.replies =~= Map::<u64, ReplyView>::empty());
        r
    }

    /// Path that requests are written to.
    pub fn infile(&self) -> (r: &str)
        ensures
            r@ == self@.infile,
    {
        self.infile.as_str()
    }

    /// Path that frames are read from.
    pub fn outfile(&self) -> (r: &str)
        ensures
            r@ == self@.outfile,
    {
        self.outfile.as_str()
    }

    /// Whether frames are being read.
    pub fn connected(&self) -> (r: bool)
        ensures
            r == self@.running,
    {
        self.running
    }

    /// First failure, if any.
    pub fn fatal(&self) -> (r: Option<&str>)
        ensures
            match r {
                Some(m) => self@.fatal == Some(m@),
                None => self@.fatal is None,
            },
    {
        match &self.fatal {
            Some(m) => Some(m.as_str()),
            None => None,
        }
    }

    /// Start reading frames, given the error that opening the output gave, if
    /// any. Nothing happens where the client is connected already.
    pub fn connect(&mut self, open_error: Option<&str>) -> (r: Result<(), KirkError>)
        ensures
            old(self)@.running ==> r is Ok && final(self)@ == old(self)@,
            !old(self)@.running ==> match open_error {
                Some(reason) => {
                    &&& final(self)@ == old(self)@
                    &&& r matches Err(e)
                    &&& e@ == ErrorView::Ltx(
                        "can't open LTX output '"@ + old(self)@.outfile + "': "@ + reason@,
                    )
                },
                None => {
                    &&& r is Ok
                    &&& final(self)@ == (LtxView {
                        fatal: None,
                        running: true,
                        buffered: Seq::empty(),
                        ..old(self)@
                    })
                },
            },
    {
        if self.running {
            return Ok(());
        }
        match open_error {
            Some(reason) => Err(
                KirkError::Ltx(
                    text::cat4("can't open LTX output '", self.outfile.as_str(), "': ", reason),
                ),
            ),
            None => {
                self.fatal = None;
                self.running = true;
                self.buffered = Vec::new();
                Ok(())
            },
        }
    }

    /// Stop reading frames; gives the failure of the client, if any. Nothing
    /// happens where the client is not connected.
    pub fn disconnect(&mut self) -> (r: Result<(), KirkError>)
        ensures
            final(self)@ == (LtxView { running: false, ..old(self)@ }),
            r is Err <==> old(self)@.running && old(self)@.fatal is Some,
            r matches Err(e) ==> e@ == ErrorView::Ltx(old(self)@.fatal->0),
    {
        if !self.running {
            return Ok(());
        }
        self.running = false;
        match &self.fatal {
            Some(m) => Err(KirkError::Ltx(m.clone())),
            None => Ok(()),
        }
    }

    /// Pack requests and queue them, in order. Gives the ids of the requests
    /// and the bytes to write.
    pub fn send(&mut self, requests: Vec<Request>) -> (r: Result<(Vec<u64>, Vec<u8>), KirkError>)
        ensures
            match send_error(old(self)@, requests@.len()) {
                Some(e) => r matches Err(x) && x@ == e && final(self)@ == old(self)@,
                None => if ids_fit(old(self)@, requests@.len()) {
                    &&& r matches Ok((ids, bytes))
                    &&& ids@ == Seq::new(
                        requests@.len(),
                        |i: int| (old(self)@.next_id + i) as u64,
                    )
                    &&& final(self)@ == queued(old(self)@, request_views(requests@))
                    &&& all_fit(request_views(requests@)) ==> bytes@ == packed_requests(
                        request_views(requests@),
                    )
                } else {
                    &&& r matches Err(x)
                    &&& x@ == id_overflow()
                    &&& final(self)@ == overflowed(old(self)@, request_views(requests@))
                },
            },
    {
        if requests.len() == 0 {
            return Err(ltx_error("No requests given"));
        }
        if !self.running {
            return Err(ltx_error("Client is not connected to LTX"));
        }
        match &self.fatal {
            Some(m) => {
                return Err(KirkError::Ltx(m.clone()));
            },
            None => {},
        }
        let ghost views = request_views(requests@);
        let ghost fit = all_fit(views);
        let mut bytes: Vec<u8> = Vec::new();
        let mut i: usize = 0;
        while i < requests.len()
            invariant
                i <= requests@.len(),
                views == request_views(requests@),
                self@ == old(self)@,
                send_error(old(self)@, requests@.len()) is None,
                fit == all_fit(views),
                fit ==> bytes@ == packed_requests(views.take(i as int)),
            decreases requests@.len() - i,
        {
            match requests[i].pack() {
                Ok(mut frame) => {
                    assert(views.take(i + 1).drop_last() =~= views.take(i as int));
                    assert(views[i as int] == requests@[i as int]@);
                    bytes.append(&mut frame);
                },
                Err(e) => {
                    return Err(e);
                },
            }
            i = i + 1;
        }
        assert(views.take(requests@.len() as int) =~= views);
        let ghost start = self@;
        let ghost sent = requests@;
        let count: usize = requests.len();
        let mut ids: Vec<u64> = Vec::new();
        let mut queue = requests;
        let mut done: usize = 0;
        assert(numbered(start.next_id, views.take(0)) =~= Seq::<(u64, RequestView)>::empty());
        assert(start.pending + numbered(start.next_id, views.take(0)) =~= start.pending);
        assert(views.skip(0) =~= views);
        while done < count
            invariant
                done <= count,
                count == views.len(),
                count == sent.len(),
                sent == requests@,
                start == old(self)@,
                views == request_views(requests@),
                send_error(old(self)@, requests@.len()) is None,
                request_views(queue@) == views.skip(done as int),
                start.next_id + done <= u64::MAX,
                ids@ == Seq::new(done as nat, |j: int| (start.next_id + j) as u64),
                self@ == (LtxView {
                    pending: start.pending + numbered(start.next_id, views.take(done as int)),
                    next_id: (start.next_id + done) as u64,
                    ..start
                }),
            decreases count - done,
        {
            assert(request_views(queue@).len() == queue@.len());
            let id: u64 = self.next_id;
            if id == u64::MAX {
                return Err(ltx_error("request id overflow"));
            }
            assert(views.skip(done as int)[0] == views[done as int]);
            let ghost before_queue = queue@;
            let request = queue.remove(0);
            assert(request@ == views[done as int]);
            assert forall|j: int| 0 <= j < queue@.len() implies request_views(queue@)[j]
                == #[trigger] views.skip(done + 1)[j] by {
                assert(queue@[j] == before_queue[j + 1]);
                assert(request_views(before_queue)[j + 1] == views.skip(done as int)[j + 1]);
            }
            assert(request_views(queue@) =~= views.skip(done + 1));
            self.next_id = id + 1;
            ids.push(id);
            let ghost before = self.pending@;
            self.pending.push(Pending { id, request });
            assert(pending_views(self.pending@) =~= pending_views(before).push((id, request@)));
            assert(numbered(start.next_id, views.take(done + 1)) =~= numbered(
                start.next_id,
                views.take(done as int),
            ).push((id, request@)));
            assert(start.pending + numbered(start.next_id, views.take(done + 1)) =~= (start.pending
                + numbered(start.next_id, views.take(done as int))).push((id, request@)));
            done = done + 1;
        }
        Ok((ids, bytes))
    }

    /// Collect the replies of `ids`, in order, once all of them are there.
    pub fn collect(&mut self, ids: &Vec<u64>) -> (r: Result<Option<Vec<Reply>>, KirkError>)
        ensures
            match link_error(old(self)@) {
                Some(e) => r matches Err(x) && x@ == e && final(self)@ == old(self)@,
                None => if all_there(old(self)@.replies, ids@) {
                    &&& r matches Ok(Some(replies))
                    &&& reply_views(replies@) == collected(old(self)@.replies, ids@).0
                    &&& final(self)@ == (LtxView {
                        replies: collected(old(self)@.replies, ids@).1,
                        ..old(self)@
                    })
                } else {
                    r matches Ok(None) && final(self)@ == old(self)@
                },
            },
    {
        broadcast use vstd::std_specs::hash::group_hash_axioms;

        match &self.fatal {
            Some(m) => {
                return Err(KirkError::Ltx(m.clone()));
            },
            None => {},
        }
        if !self.running {
            return Err(ltx_error("Client is not connected to LTX"));
        }
        let ghost start = self@;
        proof {
            assert(start.replies.dom() =~= self.replies@.dom());
        }
        if self.replies.len() < ids.len() {
            return Ok(None);
        }
        let mut i: usize = 0;
        while i < ids.len()
            invariant
                i <= ids@.len(),
                self@ == start,
                start == old(self)@,
                link_error(old(self)@) is None,
                start.replies.dom() == self.replies@.dom(),
                forall|j: int| 0 <= j < i ==> start.replies.dom().contains(#[trigger] ids@[j]),
            decreases ids@.len() - i,
        {
            if !self.replies.contains_key(&ids[i]) {
                assert(!start.replies.dom().contains(ids@[i as int]));
                return Ok(None);
            }
            i = i + 1;
        }
        let mut replies: Vec<Reply> = Vec::new();
        let mut k: usize = 0;
        assert(reply_views(replies@) =~= Seq::<ReplyView>::empty());
        assert(ids@.take(0) =~= Seq::<u64>::empty());
        while k < ids.len()
            invariant
                k <= ids@.len(),
                reply_views(replies@) == collected(start.replies, ids@.take(k as int)).0,
                self@ == (LtxView {
                    replies: collected(start.replies, ids@.take(k as int)).1,
                    ..start
                }),
            decreases ids@.len() - k,
        {
            let ghost before = self.replies@;
            let ghost kept = replies@;
            assert(ids@.take(k + 1).drop_last() =~= ids@.take(k as int));
            assert(self@.replies.dom() =~= self.replies@.dom());
            match self.replies.remove(&ids[k]) {
                Some(reply) => {
                    replies.push(reply);
                    assert(reply_views(replies@) =~= reply_views(kept).push(reply@));
                    assert(self@.replies =~= before.map_values(|r: Reply| r@).remove(
                        ids@[k as int],
                    ));
                },
                None => {
                    assert(self@.replies =~= before.map_values(|r: Reply| r@));
                },
            }
            k = k + 1;
        }
        assert(ids@.take(ids@.len() as int) =~= ids@);
        Ok(Some(replies))
    }

    fn record_fatal(&mut self, message: String)
        ensures
            final(self)@ == with_fatal(old(self)@, message@),
    {
        match &self.fatal {
            Some(_) => {},
            None => {
                self.fatal = Some(message);
            },
        }
    }

    /// Feed one frame to the waiting requests, in order.
    pub fn dispatch(&mut self, msg: &Vec<Field>)
        ensures
            final(self)@ == dispatched(old(self)@, wire::field_views(msg@)),
    {
        if msg.len() == 0 {
            return ;
        }
        match request::frame_opcode(msg) {
            None => {
                self.record_fatal(text::owned("LTX error: message opcode must be an integer"));
            },
            Some(op) => {
                if op == request::OP_ERROR {
                    if msg.len() > 1 {
                        match msg[1].as_str() {
                            Ok(detail) => {
                                self.record_fatal(text::cat2("LTX error: ", detail));
                            },
                            Err(_) => {
                                self.record_fatal(text::cat2("LTX error: ", "unknown LTX error"));
                            },
                        }
                    } else {
                        self.record_fatal(text::cat2("LTX error: ", "unknown LTX error"));
                    }
                } else {
                    self.feed_pending(msg);
                }
            },
        }
    }

    fn feed_pending(&mut self, msg: &Vec<Field>)
        ensures
            final(self)@ == ({
                let w = walk(old(self)@.pending, wire::field_views(msg@));
                let after = LtxView {
                    pending: w.kept,
                    replies: with_replies(old(self)@.replies, w.given),
                    streamed: old(self)@.streamed + w.chunks,
                    ..old(self)@
                };
                match w.error {
                    Some(e) => with_fatal(after, errors::error_text(e)),
                    None => after,
                }
            }),
    {
        broadcast use vstd::std_specs::hash::group_hash_axioms;

        let ghost start = self@;
        let ghost fields = wire::field_views(msg@);
        let ghost whole = walk(start.pending, fields);
        let ghost mut kept: Seq<(u64, RequestView)> = Seq::empty();
        let ghost mut given: Seq<(u64, ReplyView)> = Seq::empty();
        let ghost mut chunks: Seq<(u64, Seq<char>)> = Seq::empty();
        let ghost mut todo = start.pending;
        let mut position: usize = 0;
        assert(kept + todo =~= start.pending);
        assert(whole.kept =~= kept + walk(todo, fields).kept);
        assert(whole.given =~= given + walk(todo, fields).given);
        assert(whole.chunks =~= chunks + walk(todo, fields).chunks);
        assert(start.streamed + chunks =~= start.streamed);
        while position < self.pending.len()
            invariant
                fields == wire::field_views(msg@),
                start == old(self)@,
                whole == walk(start.pending, fields),
                position == kept.len(),
                self@ == (LtxView {
                    pending: kept + todo,
                    replies: with_replies(start.replies, given),
                    streamed: start.streamed + chunks,
                    ..start
                }),
                self.pending@.len() == kept.len() + todo.len(),
                whole.kept == kept + walk(todo, fields).kept,
                whole.given == given + walk(todo, fields).given,
                whole.chunks == chunks + walk(todo, fields).chunks,
                whole.error == walk(todo, fields).error,
            decreases todo.len(),
        {
            let ghost id = self.pending@[position as int].id;
            let ghost before = self@;
            let ghost before_pending = self.pending@;
            assert(before.pending[position as int] == todo[0]);
            let ghost head = todo[0];
            let ghost rest = walk(todo.drop_first(), fields);
            let mut entry = self.pending.remove(position);
            assert forall|j: int| 0 <= j < self.pending@.len() implies #[trigger] self.pending@[j]
                == before_pending[if j < position { j } else { j + 1 }] by {}
            assert forall|j: int| 0 <= j < before_pending.len() implies (
                before_pending[j].id,
                before_pending[j].request@,
            ) == #[trigger] (kept + todo)[j] by {
                assert(before.pending[j] == (kept + todo)[j]);
            }
            assert(entry.request@ == head.1 && entry.id == head.0);
            match entry.request.feed(msg) {
                Ok(Some(reply)) => {
                    let ghost said = entry.request@.streamed;
                    self.keep_chunks(entry.id, entry.request.take_streamed());
                    let ghost old_replies = self.replies@;
                    self.replies.insert(entry.id, reply);
                    proof {
                        assert(self@.replies =~= old_replies.map_values(|r: Reply| r@).insert(
                            head.0,
                            reply@,
                        ));
                        assert(given.push((head.0, reply@)).drop_last() =~= given);
                        assert(given + (seq![(head.0, reply@)] + rest.given) =~= given.push(
                            (head.0, reply@),
                        ) + rest.given);
                        given = given.push((head.0, reply@));
                        assert(chunks + (marked(head.0, said) + rest.chunks) =~= chunks + marked(
                            head.0,
                            said,
                        ) + rest.chunks);
                        assert(start.streamed + (chunks + marked(head.0, said)) =~= start.streamed
                            + chunks + marked(head.0, said));
                        chunks = chunks + marked(head.0, said);
                        let whole_todo = todo;
                        todo = todo.drop_first();
                        assert forall|j: int| 0 <= j < self.pending@.len() implies
                            #[trigger] pending_views(self.pending@)[j] == (kept + todo)[j] by {
                            let k = if j < position { j } else { j + 1 };
                            assert(self.pending@[j] == before_pending[k]);
                            assert((kept + whole_todo)[k] == (kept + todo)[j]);
                        }
                        assert(self@.pending =~= kept + todo);
                    }
                },
                Ok(None) => {
                    let ghost said = entry.request@.streamed;
                    self.keep_chunks(entry.id, entry.request.take_streamed());
                    let ghost after = entry.request@;
                    let ghost gap = self.pending@;
                    let ghost at = position as int;
                    self.pending.insert(position, entry);
                    position = position + 1;
                    proof {
                        assert forall|j: int| 0 <= j < self.pending@.len() && j != at implies
                            #[trigger] self.pending@[j] == before_pending[j] by {
                            assert(self.pending@[j] == gap[if j < at { j } else { j - 1 }]);
                        }
                        assert(kept + (seq![(head.0, after)] + rest.kept) =~= kept.push(
                            (head.0, after),
                        ) + rest.kept);
                        assert(chunks + (marked(head.0, said) + rest.chunks) =~= chunks + marked(
                            head.0,
                            said,
                        ) + rest.chunks);
                        assert(start.streamed + (chunks + marked(head.0, said)) =~= start.streamed
                            + chunks + marked(head.0, said));
                        chunks = chunks + marked(head.0, said);
                        let whole_kept = kept;
                        let whole_todo = todo;
                        kept = kept.push((head.0, after));
                        todo = todo.drop_first();
                        assert forall|j: int| 0 <= j < self.pending@.len() implies
                            #[trigger] pending_views(self.pending@)[j] == (kept + todo)[j] by {
                            if j != at {
                                assert(self.pending@[j] == before_pending[j]);
                                assert((whole_kept + whole_todo)[j] == (kept + todo)[j]);
                            }
                        }
                        assert(self@.pending =~= kept + todo);
                    }
                },
                Err(e) => {
                    proof {
                        assert(entry.request@ == head.1) by {
                            request::failure_changes_nothing(head.1, fields);
                        }
                    }
                    let ghost gap = self.pending@;
                    self.pending.insert(position, entry);
                    proof {
                        assert forall|j: int| 0 <= j < self.pending@.len() && j != position implies
                            #[trigger] self.pending@[j] == before_pending[j] by {
                            assert(self.pending@[j] == gap[if j < position { j } else { j - 1 }]);
                        }
                        assert forall|j: int| 0 <= j < self.pending@.len() implies
                            #[trigger] pending_views(self.pending@)[j] == (kept + todo)[j] by {
                            if j != position {
                                assert(self.pending@[j] == before_pending[j]);
                            }
                        }
                        assert(self@.pending =~= kept + todo);
                        assert(given + Seq::<(u64, ReplyView)>::empty() =~= given);
                        assert(chunks + Seq::<(u64, Seq<char>)>::empty() =~= chunks);
                    }
                    let message = e.to_string();
                    self.record_fatal(message);
                    return ;
                },
            }
        }
        assert(todo.len() == 0);
        assert(kept + walk(todo, fields).kept =~= kept);
        assert(kept + todo =~= kept);
        assert(given + walk(todo, fields).given =~= given);
        assert(chunks + walk(todo, fields).chunks =~= chunks);
    }

    fn keep_chunks(&mut self, id: u64, chunks: Vec<String>)
        ensures
            final(self)@ == (LtxView {
                streamed: old(self)@.streamed + marked(id, text::texts(chunks@)),
                ..old(self)@
            }),
            final(self).pending@ == old(self).pending@,
            final(self).replies@ == old(self).replies@,
    {
        let ghost start = self@;
        let ghost all = marked(id, text::texts(chunks@));
        let mut i: usize = 0;
        assert(start.streamed + all.take(0) =~= start.streamed);
        while i < chunks.len()
            invariant
                i <= chunks@.len(),
                start == old(self)@,
                all == marked(id, text::texts(chunks@)),
                self@ == (LtxView { streamed: start.streamed + all.take(i as int), ..start }),
                self.pending@ == old(self).pending@,
                self.replies@ == old(self).replies@,
            decreases chunks@.len() - i,
        {
            let ghost before = self.streamed@;
            self.streamed.push((id, chunks[i].clone()));
            assert(chunk_views(self.streamed@) =~= chunk_views(before).push((id, chunks@[i as int]@)));
            assert(start.streamed + all.take(i + 1) =~= (start.streamed + all.take(i as int)).push(
                all[i as int],
            ));
            i = i + 1;
        }
        assert(all.take(chunks@.len() as int) =~= all);
    }

    /// Take the stdout chunks that wait to be streamed, with the ids of their
    /// requests, in the order they came.
    pub fn take_streamed(&mut self) -> (r: Vec<(u64, String)>)
        ensures
            chunk_views(r@) == old(self)@.streamed,
            final(self)@ == (LtxView { streamed: Seq::empty(), ..old(self)@ }),
    {
        let mut r: Vec<(u64, String)> = Vec::new();
        std::mem::swap(&mut r, &mut self.streamed);
        assert(chunk_views(self.streamed@) =~= Seq::<(u64, Seq<char>)>::empty());
        r
    }

    /// Take in one read of the output: the bytes that came, or the reason why
    /// none did. Says whether to go on reading.
    pub fn poll(&mut self, read: Result<Vec<u8>, ReadFailure>) -> (go_on: bool)
        ensures
            final(self)@ == polled(
                old(self)@,
                match read {
                    Ok(b) => Ok(b@),
                    Err(m) => Err(m@),
                },
            ),
            go_on == (final(self)@.fatal is None),
    {
        match read {
            Err(failure) => {
                let e = KirkError::Ltx(
                    match &failure {
                        ReadFailure::Wait(reason) => text::cat2(
                            "can't wait for LTX output: ",
                            reason.as_str(),
                        ),
                        ReadFailure::Read(reason) => text::cat2(
                            "can't read LTX output: ",
                            reason.as_str(),
                        ),
                    },
                );
                let message = e.to_string();
                self.record_fatal(message);
            },
            Ok(mut chunk) => {
                let total: usize = self.buffered.len().saturating_add(chunk.len());
                if chunk.len() == 0 {
                    self.record_fatal(text::owned("LTX output closed"));
                } else if total > MAX_BUFFERED_BYTES {
                    let a = text::decimal(total as u64);
                    let b = text::decimal(MAX_BUFFERED_BYTES as u64);
                    let message = text::cat5(
                        "buffered ",
                        a.as_str(),
                        " bytes exceed ",
                        b.as_str(),
                        " bytes",
                    );
                    self.record_fatal(message);
                } else {
                    self.buffered.append(&mut chunk);
                    self.drain();
                }
            },
        }
        let go_on = self.fatal.is_none();
        if !go_on {
            self.running = false;
        }
        go_on
    }

    fn drain(&mut self)
        ensures
            final(self)@ == drained(old(self)@),
    {
        let ghost start = self@;
        loop
            invariant
                start == old(self)@,
                drained(start) == drained(self@),
            decreases self@.buffered.len(),
        {
            match wire::decode_one(self.buffered.as_slice()) {
                Ok(None) => {
                    return ;
                },
                Err(e) => {
                    let message = e.to_string();
                    self.record_fatal(message);
                    return ;
                },
                Ok(Some((msg, used))) => {
                    let ghost before = self@;
                    let rest = self.buffered.split_off(used);
                    assert(rest@ =~= before.buffered.skip(used as int));
                    self.buffered = rest;
                    self.dispatch(&msg);
                    if self.fatal.is_some() {
                        return ;
                    }
                    proof {
                        dispatch_keeps_buffer(
                            LtxView { buffered: before.buffered.skip(used as int), ..before },
                            wire::field_views(msg@),
                        );
                    }
                },
            }
        }
    }
}

/// Ids of requests that still wait are ids that waited, in the same order,
/// and the ids of the replies given are those that wait no more.
proof fn walk_ids(todo: Seq<(u64, RequestView)>, msg: Seq<FieldView>, low: u64, high: u64)
    requires
        forall|i: int, j: int|
            0 <= i < j < todo.len() ==> (#[trigger] todo[i]).0 < (#[trigger] todo[j]).0,
        forall|i: int| 0 <= i < todo.len() ==> low <= (#[trigger] todo[i]).0 < high,
    ensures
        ({
            let w = walk(todo, msg);
            &&& forall|i: int, j: int|
                0 <= i < j < w.kept.len() ==> (#[trigger] w.kept[i]).0 < (#[trigger] w.kept[j]).0
            &&& forall|i: int| 0 <= i < w.kept.len() ==> low <= (#[trigger] w.kept[i]).0 < high
            &&& forall|i: int| 0 <= i < w.given.len() ==> low <= (#[trigger] w.given[i]).0 < high
            &&& forall|i: int, j: int|
                0 <= i < w.kept.len() && 0 <= j < w.given.len() ==> (#[trigger] w.kept[i]).0 != (
                #[trigger] w.given[j]).0
            &&& forall|i: int, j: int|
                0 <= i < j < w.given.len() ==> (#[trigger] w.given[i]).0 < (#[trigger] w.given[j]).0
            &&& forall|i: int|
                0 <= i < w.kept.len() ==> exists|j: int|
                    0 <= j < todo.len() && (#[trigger] todo[j]).0 == (#[trigger] w.kept[i]).0
            &&& w.kept.len() + w.given.len() == todo.len()
        }),
    decreases todo.len(),
{
    if todo.len() > 0 {
        let tail = todo.drop_first();
        let first = todo[0].0;
        assert forall|i: int| 0 <= i < tail.len() implies first + 1 <= (#[trigger] tail[i]).0
            < high by {
            assert(tail[i] == todo[i + 1]);
        }
        if tail.len() > 0 {
            assert(tail[0] == todo[1]);
        }
        if first < u64::MAX {
            walk_ids(tail, msg, (first + 1) as u64, high);
            let w = walk(todo, msg);
            let rest = walk(tail, msg);
            assert forall|i: int| 0 <= i < rest.kept.len() implies exists|j: int|
                0 <= j < todo.len() && (#[trigger] todo[j]).0 == (#[trigger] rest.kept[i]).0 by {
                let k = choose|k: int|
                    0 <= k < tail.len() && (#[trigger] tail[k]).0 == rest.kept[i].0;
                assert(todo[k + 1].0 == rest.kept[i].0);
            }
            match request::fed(todo[0].1, msg).1 {
                request::Fed::Fail(_) => {
                    assert(w.kept == todo);
                    assert forall|i: int| 0 <= i < w.kept.len() implies exists|j: int|
                        0 <= j < todo.len() && (#[trigger] todo[j]).0 == (#[trigger] w.kept[i]).0 by {
                        assert(todo[i].0 == w.kept[i].0);
                    }
                },
                request::Fed::Reply(_) => {
                    assert(w.kept == rest.kept);
                    assert forall|j: int| 1 <= j < w.given.len() implies #[trigger] w.given[j]
                        == rest.given[j - 1] by {}
                },
                request::Fed::Nothing => {
                    assert(w.given == rest.given);
                    assert forall|j: int| 1 <= j < w.kept.len() implies #[trigger] w.kept[j]
                        == rest.kept[j - 1] by {}
                    assert(w.kept[0].0 == todo[0].0);
                },
            }
        }
    }
}

proof fn reply_keys(replies: Map<u64, ReplyView>, given: Seq<(u64, ReplyView)>, id: u64)
    ensures
        with_replies(replies, given).dom().contains(id) <==> replies.dom().contains(id) || exists|
            i: int,
        |
            0 <= i < given.len() && (#[trigger] given[i]).0 == id,
    decreases given.len(),
{
    if given.len() > 0 {
        reply_keys(replies, given.drop_last(), id);
        if exists|i: int| 0 <= i < given.drop_last().len() && (#[trigger] given.drop_last()[i]).0
            == id {
            let i = choose|i: int|
                0 <= i < given.drop_last().len() && (#[trigger] given.drop_last()[i]).0 == id;
            assert(given[i].0 == id);
        }
        if exists|i: int| 0 <= i < given.len() && (#[trigger] given[i]).0 == id {
            let i = choose|i: int| 0 <= i < given.len() && (#[trigger] given[i]).0 == id;
            if i < given.len() - 1 {
                assert(given.drop_last()[i].0 == id);
            }
        }
    }
}

/// A frame keeps the ids of a client in order: no id is waiting twice, and an
/// id that has its reply waits no more.
pub proof fn dispatch_keeps_ids(s: LtxView, msg: Seq<FieldView>)
    requires
        ids_in_order(s),
    ensures
        ids_in_order(dispatched(s, msg)),
{
    walk_ids(s.pending, msg, 0, s.next_id);
    let w = walk(s.pending, msg);
    assert forall|id: u64| #[trigger]
        with_replies(s.replies, w.given).dom().contains(id) implies id < s.next_id by {
        reply_keys(s.replies, w.given, id);
    }
    assert forall|i: int| 0 <= i < w.kept.len() implies !with_replies(
        s.replies,
        w.given,
    ).dom().contains((#[trigger] w.kept[i]).0) by {
        reply_keys(s.replies, w.given, w.kept[i].0);
        let j = choose|j: int| 0 <= j < s.pending.len() && (#[trigger] s.pending[j]).0 == w.kept[i].0;
        assert(!s.replies.dom().contains(s.pending[j].0));
    }
}

/// Bytes read keep the ids of a client in order, however they are cut.
pub proof fn drain_keeps_ids(s: LtxView)
    requires
        ids_in_order(s),
    ensures
        ids_in_order(drained(s)),
    decreases s.buffered.len(),
{
    if let wire::FrameStep::Whole(fields, used) = wire::frame_of(s.buffered) {
        wire::frame_end(s.buffered);
        let rest = LtxView { buffered: s.buffered.skip(used), ..s };
        dispatch_keeps_ids(rest, fields);
        dispatch_keeps_buffer(rest, fields);
        if dispatched(rest, fields).fatal is None {
            drain_keeps_ids(dispatched(rest, fields));
        }
    }
}

/// Reading a stream in two pieces comes to the same as reading it in one.
pub proof fn drain_in_pieces(s: LtxView, more: Seq<u8>)
    requires
        drained(s).fatal is None,
    ensures
        drained(LtxView { buffered: s.buffered + more, ..s }) == drained(
            LtxView { buffered: drained(s).buffered + more, ..drained(s) },
        ),
    decreases s.buffered.len(),
{
    if let wire::FrameStep::Whole(fields, used) = wire::frame_of(s.buffered) {
        wire::frame_end(s.buffered);
        wire::decided_is_final(s.buffered, more);
        let rest = LtxView { buffered: s.buffered.skip(used), ..s };
        let next = dispatched(rest, fields);
        dispatch_keeps_buffer(rest, fields);
        let longer = LtxView { buffered: s.buffered + more, ..s };
        assert((s.buffered + more).skip(used) =~= s.buffered.skip(used) + more);
        let longer_rest = LtxView { buffered: s.buffered.skip(used) + more, ..s };
        assert(dispatched(longer_rest, fields) =~= LtxView {
            buffered: next.buffered + more,
            ..next
        });
        if next.fatal is None {
            drain_in_pieces(next, more);
        }
    }
}

/// Sending keeps the ids of a client in order.
pub proof fn send_keeps_ids(s: LtxView, requests: Seq<RequestView>)
    requires
        ids_in_order(s),
        ids_fit(s, requests.len()),
    ensures
        ids_in_order(queued(s, requests)),
{
}

/// The replies collected for ids that are all different are the replies kept
/// under those ids, in the order asked for, and only they are taken.
pub proof fn collected_in_order(replies: Map<u64, ReplyView>, ids: Seq<u64>)
    requires
        ids.no_duplicates(),
        forall|i: int| 0 <= i < ids.len() ==> replies.dom().contains(#[trigger] ids[i]),
    ensures
        collected(replies, ids).0 == Seq::new(ids.len(), |i: int| replies[ids[i]]),
        collected(replies, ids).1 == replies.remove_keys(ids.to_set()),
    decreases ids.len(),
{
    if ids.len() == 0 {
        assert(replies.remove_keys(ids.to_set()) =~= replies);
    } else {
        let front = ids.drop_last();
        assert forall|i: int| 0 <= i < front.len() implies replies.dom().contains(
            #[trigger] front[i],
        ) by {
            assert(front[i] == ids[i]);
        }
        collected_in_order(replies, front);
        let left = collected(replies, front).1;
        assert(replies.dom().contains(ids[ids.len() - 1]));
        assert(!front.contains(ids.last())) by {
            if front.contains(ids.last()) {
                let k = choose|k: int| 0 <= k < front.len() && front[k] == ids.last();
                assert(ids[k] == ids[ids.len() - 1]);
            }
        }
        assert(left.dom().contains(ids.last()));
        assert(left[ids.last()] == replies[ids.last()]);
        assert(collected(replies, ids).0 =~= Seq::new(ids.len(), |i: int| replies[ids[i]]));
        assert forall|x: u64| #[trigger] ids.to_set().contains(x) <==> front.to_set().contains(x) || x
            == ids.last() by {
            if ids.contains(x) {
                let k = choose|k: int| 0 <= k < ids.len() && ids[k] == x;
                if k < ids.len() - 1 {
                    assert(front[k] == x);
                }
            }
            if front.contains(x) {
                let k = choose|k: int| 0 <= k < front.len() && front[k] == x;
                assert(ids[k] == x);
            }
            assert(ids[ids.len() - 1] == ids.last());
        }
        assert(collected(replies, ids).1 =~= replies.remove_keys(ids.to_set()));
    }
}

proof fn dispatch_keeps_buffer(s: LtxView, msg: Seq<FieldView>)
    ensures
        dispatched(s, msg).buffered == s.buffered,
{
}

/// A frame is fed to every waiting request, in order: those that it answers
/// leave with their replies, and the others stay.
pub proof fn frames_reach_every_request(
    todo: Seq<(u64, RequestView)>,
    more: Seq<(u64, RequestView)>,
    msg: Seq<FieldView>,
)
    requires
        walk(todo, msg).error is None,
    ensures
        ({
            let a = walk(todo, msg);
            let b = walk(more, msg);
            walk(todo + more, msg) == (Walk {
                kept: a.kept + b.kept,
                given: a.given + b.given,
                chunks: a.chunks + b.chunks,
                error: b.error,
            })
        }),
    decreases todo.len(),
{
    let all = todo + more;
    let a = walk(todo, msg);
    let b = walk(more, msg);
    if todo.len() == 0 {
        assert(all =~= more);
        assert(a.kept + b.kept =~= b.kept);
        assert(a.given + b.given =~= b.given);
        assert(a.chunks + b.chunks =~= b.chunks);
    } else {
        frames_reach_every_request(todo.drop_first(), more, msg);
        assert(all.drop_first() =~= todo.drop_first() + more);
        assert(all[0] == todo[0]);
        assert(walk(all, msg).kept =~= a.kept + b.kept);
        assert(walk(all, msg).given =~= a.given + b.given);
        assert(walk(all, msg).chunks =~= a.chunks + b.chunks);
    }
}

/// One request stays with what the frame made of it, leaves with its reply, or
/// is left as it was where the frame breaks the protocol.
pub proof fn one_request_is_fed(id: u64, r: RequestView, msg: Seq<FieldView>)
    requires
        r.streamed.len() == 0,
    ensures
        ({
            let (after, out) = request::fed(r, msg);
            let w = walk(seq![(id, r)], msg);
            &&& out is Nothing ==> w.error is None && w.given.len() == 0 && w.kept.len() == 1
                && w.kept[0].0 == id && w.kept[0].1 == (RequestView {
                streamed: Seq::empty(),
                ..after
            })
            &&& out is Nothing ==> w.chunks == marked(id, after.streamed)
            &&& out is Reply ==> w.error is None && w.kept.len() == 0 && w.given == seq![
                (id, out->Reply_0),
            ]
            &&& out is Fail ==> w.error == Some(out->Fail_0) && w.kept == seq![(id, r)]
                && w.given.len() == 0
        }),
{
    let one = seq![(id, r)];
    let (after, out) = request::fed(r, msg);
    assert(one.drop_first() =~= Seq::<(u64, RequestView)>::empty());
    let w = walk(one, msg);
    assert(walk(one.drop_first(), msg).given =~= Seq::<(u64, ReplyView)>::empty());
    assert(out is Nothing ==> w.chunks =~= marked(id, after.streamed));
    assert(out is Reply ==> w.given =~= seq![(id, out->Reply_0)]);
}

/// A reply is kept under the id of its request; the other replies stay.
pub proof fn replies_are_kept(
    replies: Map<u64, ReplyView>,
    given: Seq<(u64, ReplyView)>,
    i: int,
    id: u64,
)
    requires
        forall|j: int, k: int|
            0 <= j < k < given.len() ==> (#[trigger] given[j]).0 != (#[trigger] given[k]).0,
    ensures
        0 <= i < given.len() ==> with_replies(replies, given).dom().contains(given[i].0)
            && with_replies(replies, given)[given[i].0] == given[i].1,
        (forall|j: int| 0 <= j < given.len() ==> (#[trigger] given[j]).0 != id) ==> {
            &&& with_replies(replies, given).dom().contains(id) == replies.dom().contains(id)
            &&& replies.dom().contains(id) ==> with_replies(replies, given)[id] == replies[id]
        },
    decreases given.len(),
{
    if given.len() > 0 {
        let front = given.drop_last();
        assert forall|j: int, k: int| 0 <= j < k < front.len() implies (#[trigger] front[j]).0 != (
        #[trigger] front[k]).0 by {
            assert(front[j] == given[j] && front[k] == given[k]);
        }
        replies_are_kept(replies, front, i, id);
        if 0 <= i < front.len() {
            assert(front[i] == given[i]);
            assert(given[i].0 != given[given.len() - 1].0);
        }
        if forall|j: int| 0 <= j < given.len() ==> (#[trigger] given[j]).0 != id {
            assert forall|j: int| 0 <= j < front.len() implies (#[trigger] front[j]).0 != id by {
                assert(front[j] == given[j]);
            }
            assert(given[given.len() - 1].0 != id);
        }
    }
}

/// An error of the peer is fatal and told in its words, unless the client has
/// failed before; the requests keep waiting.
pub proof fn peer_errors_are_fatal(s: LtxView, detail: Seq<char>)
    ensures
        s.fatal is None ==> dispatched(s, seq![FieldView::U64(0xff), FieldView::Str(detail)])
            == (LtxView { fatal: Some("LTX error: "@ + detail), ..s }),
        s.fatal is Some ==> dispatched(s, seq![FieldView::U64(0xff), FieldView::Str(detail)]) == s,
        s.fatal is None ==> dispatched(s, seq![FieldView::U64(0xff)]).fatal == Some(
            "LTX error: "@ + "unknown LTX error"@,
        ),
        s.fatal is None ==> dispatched(s, seq![FieldView::Str(detail)]).fatal is Some,
        dispatched(s, Seq::empty()) == s,
{
}

/// A whole frame at the front of what was read is taken and fed to the
/// requests, and what follows it is read on.
pub proof fn whole_frames_are_fed(s: LtxView, fields: Seq<FieldView>, rest: Seq<u8>)
    requires
        fields.len() <= 8,
        forall|i: int| 0 <= i < fields.len() ==> wire::sendable(#[trigger] fields[i]),
        s.buffered == wire::packed_frame(fields) + rest,
    ensures
        ({
            let next = dispatched(LtxView { buffered: rest, ..s }, fields);
            drained(s) == if next.fatal is Some {
                next
            } else {
                drained(next)
            }
        }),
        drained(LtxView { buffered: Seq::empty(), ..s }) == (LtxView {
            buffered: Seq::empty(),
            ..s
        }),
{
    wire::frame_round_trip(fields, rest);
    let n = wire::packed_frame(fields).len() as int;
    assert((wire::packed_frame(fields) + rest).skip(n) =~= rest);
}

/// A client stops where its output ends, cannot be read or grows past the cap,
/// and its first failure is the one that is told.
pub proof fn failed_reads_stop(s: LtxView, reason: Seq<char>, chunk: Seq<u8>)
    ensures
        polled(s, Ok(Seq::empty())).fatal == (if s.fatal is Some {
            s.fatal
        } else {
            Some("LTX output closed"@)
        }),
        !polled(s, Ok(Seq::empty())).running,
        polled(s, Err(reason)).fatal is Some,
        !polled(s, Err(reason)).running,
        polled(s, Err(reason)).pending == s.pending,
        chunk.len() > 0 && s.buffered.len() + chunk.len() > MAX_BUFFERED_BYTES ==> polled(
            s,
            Ok(chunk),
        ).fatal is Some && !polled(s, Ok(chunk)).running,
        polled(s, Ok(chunk)).fatal is Some ==> !polled(s, Ok(chunk)).running,
        s.fatal is Some ==> polled(s, Err(reason)).fatal == s.fatal,
{
}

/// Requests are written one behind the other, in order, and get consecutive
/// ids from the next free one on.
pub proof fn requests_are_sent_in_order(r: RequestView, rest: Seq<RequestView>, s: LtxView, i: int)
    ensures
        packed_requests(seq![r] + rest) == wire::packed_frame(request::request_fields(r.ask))
            + packed_requests(rest),
        packed_requests(Seq::empty()).len() == 0,
        0 <= i < rest.len() && s.next_id + rest.len() <= u64::MAX ==> {
            &&& queued(s, rest).pending.len() == s.pending.len() + rest.len()
            &&& queued(s, rest).pending[s.pending.len() + i].0 == s.next_id + i
            &&& queued(s, rest).pending[s.pending.len() + i].1 == rest[i]
            &&& queued(s, rest).next_id == s.next_id + rest.len()
            &&& queued(s, rest).replies == s.replies
        },
    decreases rest.len(),
{
    let all = seq![r] + rest;
    if rest.len() == 0 {
        assert(all.drop_last() =~= rest);
        assert(packed_requests(all) =~= wire::packed_frame(request::request_fields(r.ask))
            + packed_requests(rest));
    } else {
        requests_are_sent_in_order(r, rest.drop_last(), s, 0);
        assert(all.drop_last() =~= seq![r] + rest.drop_last());
        assert(all.last() == rest.last());
        assert(packed_requests(all) =~= wire::packed_frame(request::request_fields(r.ask))
            + packed_requests(rest));
    }
}

/// Requests are sent by a client that is connected and has not failed, and only
/// where there are any.
pub proof fn sending_needs_a_link(s: LtxView, count: nat)
    ensures
        send_error(s, count) is None <==> count > 0 && s.running && s.fatal is None,
        count > 0 && s.running && s.fatal is Some ==> send_error(s, count) == Some(
            ErrorView::Ltx(s.fatal->0),
        ),
        link_error(s) is None <==> s.running && s.fatal is None,
        s.fatal is Some ==> link_error(s) == Some(ErrorView::Ltx(s.fatal->0)),
{
}

/// What a streaming command logs is handed on under the id of its request, at
/// the end of what is to be streamed, and is kept for the result as well.
pub proof fn logs_are_streamed(
    s: LtxView,
    id: u64,
    r: RequestView,
    at: FieldView,
    log: Seq<char>,
)
    requires
        s.pending == seq![(id, r)],
        r.ask is Execute,
        !r.completed,
        r.echoed,
        r.streaming,
        r.streamed.len() == 0,
        log.len() > 0,
        text::byte_len(r.stdout) + text::byte_len(log) <= 16777216,
    ensures
        dispatched(
            s,
            seq![
                FieldView::U64(9),
                FieldView::U64(r.ask->Execute_0 as u64),
                at,
                FieldView::Str(log),
            ],
        ) == (LtxView {
            pending: seq![(id, RequestView { stdout: r.stdout + log, ..r })],
            streamed: s.streamed.push((id, log)),
            ..s
        }),
{
    let msg = seq![
        FieldView::U64(9),
        FieldView::U64(r.ask->Execute_0 as u64),
        at,
        FieldView::Str(log),
    ];
    request::commands_are_answered(r, log, at, 0, 0, 0);
    one_request_is_fed(id, r, msg);
    let after = request::fed(r, msg).0;
    let w = walk(s.pending, msg);
    assert(r.streamed.push(log) =~= seq![log]);
    assert(marked(id, seq![log]) =~= seq![(id, log)]);
    assert(s.streamed + seq![(id, log)] =~= s.streamed.push((id, log)));
    assert(r.streamed =~= Seq::<Seq<char>>::empty());
    assert((RequestView { streamed: Seq::empty(), ..after }) == (RequestView {
        stdout: r.stdout + log,
        ..r
    }));
    assert(w.kept =~= seq![(id, RequestView { stdout: r.stdout + log, ..r })]);
    assert(w.given =~= Seq::<(u64, ReplyView)>::empty());
}

/// A request that a frame answers leaves the queue, and its reply is kept under
/// its id.
pub proof fn answered_requests_leave(s: LtxView, id: u64, r: RequestView, msg: Seq<FieldView>)
    requires
        s.pending == seq![(id, r)],
        r.streamed.len() == 0,
        request::fed(r, msg).1 is Reply,
        request::frame_opcode_of(msg) is Some,
        request::frame_opcode_of(msg) != Some(0xffu8),
    ensures
        dispatched(s, msg).pending.len() == 0,
        dispatched(s, msg).replies == s.replies.insert(id, request::fed(r, msg).1->Reply_0),
        dispatched(s, msg).fatal == s.fatal,
        dispatched(s, msg).next_id == s.next_id,
{
    one_request_is_fed(id, r, msg);
    let reply = request::fed(r, msg).1->Reply_0;
    let given = seq![(id, reply)];
    assert(given.drop_last() =~= Seq::<(u64, ReplyView)>::empty());
    assert(given.last() == (id, reply));
    assert(with_replies(s.replies, given.drop_last()) == s.replies);
    assert(walk(s.pending, msg).given == given);
}

/// A frame that breaks the protocol fails the client, in the words of the
/// error.
pub proof fn broken_frames_are_fatal(s: LtxView, id: u64, r: RequestView, msg: Seq<FieldView>)
    requires
        s.pending == seq![(id, r)],
        s.fatal is None,
        r.streamed.len() == 0,
        request::fed(r, msg).1 is Fail,
        request::frame_opcode_of(msg) is Some,
        request::frame_opcode_of(msg) != Some(0xffu8),
    ensures
        dispatched(s, msg).fatal == Some(errors::error_text(request::fed(r, msg).1->Fail_0)),
        dispatched(s, msg).pending == s.pending,
{
    one_request_is_fed(id, r, msg);
}

} // verus!
