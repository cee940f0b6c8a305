//! Communication channel over LTX.
//!
//! Commands run in execution slots; a slot is reserved for as long as its
//! command runs. The channel decides what is sent and what a reply means;
//! reading and writing the two files is left to its caller.

use crate::com::ChannelHandle;
use crate::com::CmdResult;
use crate::com::ComChannel;
use crate::com::Plugin;
use crate::errors;
use crate::errors::ErrorView;
use crate::errors::KirkError;
use crate::ltx::client;
use crate::ltx::client::Ltx;
use crate::ltx::client::LtxView;
use crate::ltx::client::ReadFailure;
use crate::ltx::request;
use crate::ltx::request::Ask;
use crate::ltx::request::Reply;
use crate::ltx::request::ReplyView;
use crate::ltx::request::Request;
use crate::ltx::request::RequestView;
use crate::ltx::request::SlotId;
use crate::ltx::request::MAX_SLOTS;
use crate::text;
use crate::textmap::EntryView;
use crate::textmap::TextMap;
use vstd::prelude::*;
use vstd::string::*;

verus! {

/// Why a download path is refused, if it is: empty, with a NUL character, or
/// with a component that leads to the parent directory.
pub open spec fn target_path_error(path: Seq<char>) -> Option<ErrorView> {
    if path.len() == 0 {
        Some(ErrorView::Communication("target path is empty"@))
    } else if path.contains('\0') {
        Some(ErrorView::Communication("target path contains NUL byte"@))
    } else if text::pieces(path, '/').contains(".."@) {
        Some(ErrorView::Communication("target path '"@ + path + "' escapes with '..'"@))
    } else {
        None
    }
}

/// Reject unsafe download paths.
pub fn check_target_path(path: &str) -> (r: Result<(), KirkError>)
    ensures
        match r {
            Ok(_) => target_path_error(path@) is None,
            Err(e) => target_path_error(path@) == Some(e@),
        },
{
    if path.is_empty() {
        return Err(KirkError::Communication(text::owned("target path is empty")));
    }
    if text::contains_char(path, '\0') {
        return Err(KirkError::Communication(text::owned("target path contains NUL byte")));
    }
    let parts = text::split_on(path, '/');
    if text::has_text(&parts, "..") {
        return Err(
            KirkError::Communication(text::cat3("target path '", path, "' escapes with '..'")),
        );
    }
    Ok(())
}

/// Communication channel driving an LTX executor over a pair of files.
#[derive(Debug)]
pub struct LtxChannel {
    name: String,
    infile: String,
    outfile: String,
    link: Option<Ltx>,
    slots: Vec<u8>,
}

/// What a channel holds.
#[verifier::ext_equal]
pub struct ChannelView {
    /// Name of the channel.
    pub name: Seq<char>,
    /// Path that requests are written to.
    pub infile: Seq<char>,
    /// Path that frames are read from.
    pub outfile: Seq<char>,
    /// Connection, once communication has started.
    pub link: Option<LtxView>,
    /// Reserved slots, in the order they were reserved.
    pub slots: Seq<u8>,
}

impl View for LtxChannel {
    type V = ChannelView;

    closed spec fn view(&self) -> ChannelView {
        ChannelView {
            name: self.name@,
            infile: self.infile@,
            outfile: self.outfile@,
            link: match self.link {
                Some(l) => Some(l@),
                None => None,
            },
            slots: self.slots@,
        }
    }
}

/// Whether the slots are assignable ones, each reserved once.
pub open spec fn valid_slots(slots: Seq<u8>) -> bool {
    slots.no_duplicates() && forall|i: int| 0 <= i < slots.len() ==> #[trigger] slots[i] < MAX_SLOTS
}

/// Whether communication is active.
pub open spec fn is_active(c: ChannelView) -> bool {
    c.link matches Some(l) && l.running
}

/// A channel that was not used yet.
pub open spec fn unused(name: Seq<char>, infile: Seq<char>, outfile: Seq<char>) -> ChannelView {
    ChannelView { name, infile, outfile, link: None, slots: Seq::empty() }
}

/// The lowest slot that is free, up to [`MAX_SLOTS`].
pub open spec fn is_first_free(slots: Seq<u8>, id: u8) -> bool {
    id < MAX_SLOTS && !slots.contains(id) && forall|k: u8| k < id ==> slots.contains(k)
}

/// An LTX failure as a communication error.
pub open spec fn as_communication(e: ErrorView) -> ErrorView {
    ErrorView::Communication(errors::error_text(e))
}

/// Turn an LTX failure into a communication error.
pub fn communication(error: &KirkError) -> (r: KirkError)
    ensures
        r@ == as_communication(error@),
{
    KirkError::Communication(error.to_string())
}

/// Requests that run a command in a slot: the working directory and the
/// variables, if any, then the command.
pub open spec fn command_asks(
    slot: u8,
    command: Seq<char>,
    cwd: Option<Seq<char>>,
    env: Seq<EntryView>,
) -> Seq<Ask> {
    let place = match cwd {
        Some(path) => seq![Ask::Cwd(slot, path)],
        None => Seq::empty(),
    };
    let vars = env.map_values(|e: EntryView| Ask::Env(slot, e.0, e.1));
    place + vars + seq![Ask::Execute(slot, command)]
}

/// Why the requests of a command are refused, if they are: the first of them
/// with an empty part.
pub open spec fn command_error(
    command: Seq<char>,
    cwd: Option<Seq<char>>,
    env: Seq<EntryView>,
) -> Option<ErrorView> {
    if cwd == Some(Seq::<char>::empty()) {
        Some(ErrorView::Ltx("path is empty"@))
    } else {
        match env_error(env) {
            Some(e) => Some(e),
            None => if command.len() == 0 {
                Some(ErrorView::Ltx("Command is empty"@))
            } else {
                None
            },
        }
    }
}

/// Why variables are refused, if they are.
pub open spec fn env_error(env: Seq<EntryView>) -> Option<ErrorView>
    decreases env.len(),
{
    if env.len() == 0 {
        None
    } else {
        match env_error(env.drop_last()) {
            Some(e) => Some(e),
            None => if env.last().0.len() == 0 {
                Some(ErrorView::Ltx("key is empty"@))
            } else if env.last().1.len() == 0 {
                Some(ErrorView::Ltx("value is empty"@))
            } else {
                None
            },
        }
    }
}

/// Entries of an optional environment.
pub open spec fn env_list(env: Option<&TextMap>) -> Seq<EntryView> {
    match env {
        Some(m) => m.list(),
        None => Seq::empty(),
    }
}

/// Requests as they are sent: the command keeps its stdout for streaming.
pub open spec fn asked(ask: Ask) -> RequestView {
    RequestView { streaming: ask is Execute, ..request::fresh(ask) }
}

/// Reply that tells how a command ended.
pub open spec fn last_reply(replies: Seq<ReplyView>) -> Option<ReplyView> {
    if replies.len() == 0 {
        None
    } else {
        Some(replies.last())
    }
}

/// Requests that kill what runs in the slots.
pub open spec fn kill_asks(slots: Seq<u8>) -> Seq<RequestView> {
    slots.map_values(|id: u8| request::fresh(Ask::Kill(id)))
}

/// Help on each configuration option.
pub open spec fn option_help() -> Map<Seq<char>, Seq<char>> {
    map![
        "infile"@ => "file where ltx is reading data"@,
        "outfile"@ => "file where ltx is writing data"@,
    ]
}

impl Plugin for LtxChannel {
    open spec fn plugin_name(&self) -> Seq<char> {
        self@.name
    }

    fn name(&self) -> &str {
        self.name.as_str()
    }

    fn config_help(&self) -> (r: TextMap)
        ensures
            r@ == option_help(),
    {
        let mut help = TextMap::new();
        help.insert("infile", "file where ltx is reading data");
        help.insert("outfile", "file where ltx is writing data");
        help
    }

    fn renamed(&self, name: &str) -> (r: Self)
        ensures
            r@ == unused(name@, self@.infile, self@.outfile),
    {
        LtxChannel {
            name: name.to_owned(),
            infile: self.infile.clone(),
            outfile: self.outfile.clone(),
            link: None,
            slots: Vec::new(),
        }
    }
}

impl ComChannel for LtxChannel {
    open spec fn is_parallel(&self) -> bool {
        true
    }

    open spec fn is_communicating(&self) -> bool {
        is_active(self@)
    }

    fn parallel_execution(&self) -> bool {
        true
    }

    fn active(&self) -> bool {
        match &self.link {
            Some(link) => link.connected(),
            None => false,
        }
    }

    fn concurrent_handle(&self) -> Option<ChannelHandle> {
        Some(ChannelHandle { channel: self.name.clone() })
    }
}

impl LtxChannel {
    #[verifier::type_invariant]
    spec fn slots_valid(self) -> bool {
        valid_slots(self.slots@)
    }

    /// Create an unconfigured channel named `ltx`.
    pub fn new() -> (r: Self)
        ensures
            r@ == unused("ltx"@, Seq::empty(), Seq::empty()),
    {
        LtxChannel {
            name: text::owned("ltx"),
            infile: String::new(),
            outfile: String::new(),
            link: None,
            slots: Vec::new(),
        }
    }

    /// Take the two paths from a configuration, given whether they exist.
    pub fn setup(&mut self, cfg: &TextMap, infile_exists: bool, outfile_exists: bool) -> (r: Result<
        (),
        KirkError,
    >)
        ensures
            ({
                let infile = config_text(cfg@, "infile"@);
                let outfile = config_text(cfg@, "outfile"@);
                if infile.len() == 0 || !infile_exists {
                    &&& r matches Err(e)
                    &&& e@ == ErrorView::Communication(
                        "'"@ + infile + "' input file doesn't exist"@,
                    )
                    &&& final(self)@ == old(self)@
                } else if outfile.len() == 0 || !outfile_exists {
                    &&& r matches Err(e)
                    &&& e@ == ErrorView::Communication(
                        "'"@ + outfile + "' output file doesn't exist"@,
                    )
                    &&& final(self)@ == old(self)@
                } else {
                    r is Ok && final(self)@ == (ChannelView { infile, outfile, ..old(self)@ })
                }
            }),
    {
        proof {
            use_type_invariant(&*self);
        }
        let infile = match cfg.get("infile") {
            Some(path) => path,
            None => "",
        };
        let outfile = match cfg.get("outfile") {
            Some(path) => path,
            None => "",
        };
        proof {
            reveal_strlit("");
            assert(""@ =~= Seq::<char>::empty());
        }
        if infile.is_empty() || !infile_exists {
            return Err(
                KirkError::Communication(text::cat3("'", infile, "' input file doesn't exist")),
            );
        }
        if outfile.is_empty() || !outfile_exists {
            return Err(
                KirkError::Communication(text::cat3("'", outfile, "' output file doesn't exist")),
            );
        }
        self.infile = infile.to_owned();
        self.outfile = outfile.to_owned();
        Ok(())
    }

    /// Path that requests are written to.
    pub fn infile(&self) -> (r: &str)
        ensures
            r@ == self@.infile,
    {
        self.infile.as_str()
    }

    /// Path that frames are read from.
    pub fn outfile(&self) -> (r: &str)
        ensures
            r@ == self@.outfile,
    {
        self.outfile.as_str()
    }

    /// Open a connection, given the error that opening the output gave, if
    /// any. The channel takes it up with [`LtxChannel::adopt`].
    pub fn open_link(&self, open_error: Option<&str>) -> (r: Result<Ltx, KirkError>)
        ensures
            if is_active(self@) {
                r matches Err(e) && e@ == ErrorView::Communication("LTX is already running"@)
            } else {
                match open_error {
                    Some(reason) => r matches Err(e) && e@ == as_communication(
                        ErrorView::Ltx(
                            "can't open LTX output '"@ + self@.outfile + "': "@ + reason@,
                        ),
                    ),
                    None => {
                        &&& r matches Ok(link)
                        &&& link@ == (LtxView {
                            infile: self@.infile,
                            outfile: self@.outfile,
                            pending: Seq::empty(),
                            replies: Map::empty(),
                            next_id: 0,
                            fatal: None,
                            running: true,
                            buffered: Seq::empty(),
                            streamed: Seq::empty(),
                        })
                    },
                }
            },
    {
        if self.active() {
            return Err(KirkError::Communication(text::owned("LTX is already running")));
        }
        let mut link = Ltx::new(self.infile.as_str(), self.outfile.as_str());
        match link.connect(open_error) {
            Ok(_) => Ok(link),
            Err(e) => Err(communication(&e)),
        }
    }

    /// Take up a connection, given what the version handshake on it gave. A
    /// connection whose handshake failed is dropped.
    pub fn adopt(&mut self, link: Ltx, handshake: Result<Vec<Reply>, KirkError>) -> (r: Result<
        (),
        KirkError,
    >)
        ensures
            match handshake {
                Ok(_) => r is Ok && final(self)@ == (ChannelView {
                    link: Some(link@),
                    ..old(self)@
                }),
                Err(x) => {
                    &&& r matches Err(e)
                    &&& e@ == as_communication(x@)
                    &&& final(self)@ == old(self)@
                },
            },
    {
        proof {
            use_type_invariant(&*self);
        }
        match handshake {
            Ok(_) => {
                self.link = Some(link);
                Ok(())
            },
            Err(e) => Err(communication(&e)),
        }
    }

    /// Give up the connection; gives its failure, if any.
    pub fn drop_link(&mut self) -> (r: Result<(), KirkError>)
        ensures
            final(self)@ == (ChannelView { link: None, ..old(self)@ }),
            match old(self)@.link {
                Some(l) => if l.running && l.fatal is Some {
                    r matches Err(e) && e@ == as_communication(ErrorView::Ltx(l.fatal->0))
                } else {
                    r is Ok
                },
                None => r is Ok,
            },
    {
        proof {
            use_type_invariant(&*self);
        }
        let mut gone: Option<Ltx> = None;
        std::mem::swap(&mut gone, &mut self.link);
        match gone {
            Some(mut link) => match link.disconnect() {
                Ok(_) => Ok(()),
                Err(e) => Err(communication(&e)),
            },
            None => Ok(()),
        }
    }

    /// Queue requests on the connection. Gives the ids of the requests and
    /// the bytes to write.
    pub fn send_requests(&mut self, requests: Vec<Request>) -> (r: Result<
        (Vec<u64>, Vec<u8>),
        KirkError,
    >)
        ensures
            final(self)@.slots == old(self)@.slots,
            match old(self)@.link {
                None => {
                    &&& r matches Err(e)
                    &&& e@ == ErrorView::Communication("LTX connection is not present"@)
                    &&& final(self)@ == old(self)@
                },
                Some(l) => match client::send_error(l, requests@.len()) {
                    Some(x) => {
                        &&& r matches Err(e)
                        &&& e@ == as_communication(x)
                        &&& final(self)@ == old(self)@
                    },
                    None => {
                        let views = client::request_views(requests@);
                        if client::ids_fit(l, requests@.len()) {
                            &&& r matches Ok((ids, bytes))
                            &&& ids@ == Seq::new(requests@.len(), |i: int| (l.next_id + i) as u64)
                            &&& final(self)@ == (ChannelView {
                                link: Some(client::queued(l, views)),
                                ..old(self)@
                            })
                            &&& client::all_fit(views) ==> bytes@ == client::packed_requests(views)
                        } else {
                            &&& r matches Err(e)
                            &&& e@ == as_communication(client::id_overflow())
                            &&& final(self)@ == (ChannelView {
                                link: Some(client::overflowed(l, views)),
                                ..old(self)@
                            })
                        }
                    },
                },
            },
    {
        proof {
            use_type_invariant(&*self);
        }
        let mut taken: Option<Ltx> = None;
        std::mem::swap(&mut taken, &mut self.link);
        match taken {
            None => Err(KirkError::Communication(text::owned("LTX connection is not present"))),
            Some(mut link) => {
                let sent = link.send(requests);
                self.link = Some(link);
                match sent {
                    Ok(out) => Ok(out),
                    Err(e) => Err(communication(&e)),
                }
            },
        }
    }

    /// Collect the replies of `ids` once all of them are there.
    pub fn collect(&mut self, ids: &Vec<u64>) -> (r: Result<Option<Vec<Reply>>, KirkError>)
        ensures
            match old(self)@.link {
                None => {
                    &&& r matches Err(e)
                    &&& e@ == ErrorView::Communication("LTX connection is not present"@)
                    &&& final(self)@ == old(self)@
                },
                Some(l) => match client::link_error(l) {
                    Some(x) => {
                        &&& r matches Err(e)
                        &&& e@ == as_communication(x)
                        &&& final(self)@ == old(self)@
                    },
                    None => if client::all_there(l.replies, ids@) {
                        &&& r matches Ok(Some(replies))
                        &&& client::reply_views(replies@) == client::collected(l.replies, ids@).0
                        &&& final(self)@ == (ChannelView {
                            link: Some(
                                LtxView { replies: client::collected(l.replies, ids@).1, ..l },
                            ),
                            ..old(self)@
                        })
                    } else {
                        r matches Ok(None) && final(self)@ == old(self)@
                    },
                },
            },
    {
        proof {
            use_type_invariant(&*self);
        }
        let mut taken: Option<Ltx> = None;
        std::mem::swap(&mut taken, &mut self.link);
        match taken {
            None => Err(KirkError::Communication(text::owned("LTX connection is not present"))),
            Some(mut link) => {
                let got = link.collect(ids);
                self.link = Some(link);
                match got {
                    Ok(out) => Ok(out),
                    Err(e) => Err(communication(&e)),
                }
            },
        }
    }

    /// Take in one read of the output; says whether to go on reading.
    pub fn poll(&mut self, read: Result<Vec<u8>, ReadFailure>) -> (go_on: bool)
        ensures
            match old(self)@.link {
                None => !go_on && final(self)@ == old(self)@,
                Some(l) => {
                    let after = client::polled(
                        l,
                        match read {
                            Ok(b) => Ok(b@),
                            Err(m) => Err(m@),
                        },
                    );
                    &&& go_on == (after.fatal is None)
                    &&& final(self)@ == (ChannelView { link: Some(after), ..old(self)@ })
                },
            },
    {
        proof {
            use_type_invariant(&*self);
        }
        let mut taken: Option<Ltx> = None;
        std::mem::swap(&mut taken, &mut self.link);
        match taken {
            None => false,
            Some(mut link) => {
                let go_on = link.poll(read);
                self.link = Some(link);
                go_on
            },
        }
    }

    /// Take the stdout chunks that wait to be streamed, with the ids of their
    /// requests.
    pub fn take_streamed(&mut self) -> (r: Vec<(u64, String)>)
        ensures
            match old(self)@.link {
                None => r@.len() == 0 && final(self)@ == old(self)@,
                Some(l) => {
                    &&& client::chunk_views(r@) == l.streamed
                    &&& final(self)@ == (ChannelView {
                        link: Some(LtxView { streamed: Seq::empty(), ..l }),
                        ..old(self)@
                    })
                },
            },
    {
        proof {
            use_type_invariant(&*self);
        }
        let mut taken: Option<Ltx> = None;
        std::mem::swap(&mut taken, &mut self.link);
        match taken {
            None => Vec::new(),
            Some(mut link) => {
                let chunks = link.take_streamed();
                self.link = Some(link);
                chunks
            },
        }
    }

    /// Reserve the first free execution slot.
    pub fn reserve_slot(&mut self) -> (r: Result<u8, KirkError>)
        ensures
            match r {
                Ok(id) => {
                    &&& is_first_free(old(self)@.slots, id)
                    &&& final(self)@ == (ChannelView {
                        slots: old(self)@.slots.push(id),
                        ..old(self)@
                    })
                },
                Err(e) => {
                    &&& forall|id: u8| id < MAX_SLOTS ==> old(self)@.slots.contains(id)
                    &&& e@ == ErrorView::Communication("No execution slots available"@)
                    &&& final(self)@ == old(self)@
                },
            },
            valid_slots(final(self)@.slots),
    {
        proof {
            use_type_invariant(&*self);
        }
        let mut slots: Vec<u8> = Vec::new();
        std::mem::swap(&mut slots, &mut self.slots);
        let ghost start = slots@;
        let mut id: u8 = 0;
        while id < MAX_SLOTS
            invariant
                id <= MAX_SLOTS,
                slots@ == start,
                start == old(self)@.slots,
                self@ == (ChannelView { slots: Seq::empty(), ..old(self)@ }),
                valid_slots(start),
                forall|k: u8| k < id ==> start.contains(k),
            decreases MAX_SLOTS - id,
        {
            if !slot_taken(&slots, id) {
                slots.push(id);
                assert(valid_slots(slots@)) by {
                    assert forall|i: int, j: int|
                        0 <= i < slots@.len() && 0 <= j < slots@.len() && i != j implies slots@[i]
                        != slots@[j] by {
                        if i == start.len() {
                            assert(start[j] != id);
                        } else if j == start.len() {
                            assert(start[i] != id);
                        }
                    }
                }
                self.slots = slots;
                return Ok(id);
            }
            id = id + 1;
        }
        self.slots = slots;
        Err(KirkError::Communication(text::owned("No execution slots available")))
    }

    /// Release an execution slot; one that is not reserved is left alone.
    pub fn release_slot(&mut self, slot: u8)
        ensures
            final(self)@ == (ChannelView {
                slots: old(self)@.slots.filter(|id: u8| id != slot),
                ..old(self)@
            }),
            valid_slots(final(self)@.slots),
    {
        proof {
            use_type_invariant(&*self);
        }
        let mut slots: Vec<u8> = Vec::new();
        std::mem::swap(&mut slots, &mut self.slots);
        let ghost start = slots@;
        let ghost keep = |id: u8| id != slot;
        let mut left: Vec<u8> = Vec::new();
        let mut i: usize = 0;
        assert(start.take(0).filter(keep) =~= Seq::<u8>::empty()) by {
            reveal(Seq::filter);
        }
        while i < slots.len()
            invariant
                i <= slots@.len(),
                slots@ == start,
                keep == |id: u8| id != slot,
                left@ == start.take(i as int).filter(keep),
            decreases slots@.len() - i,
        {
            proof {
                reveal(Seq::filter);
                assert(start.take(i + 1).drop_last() =~= start.take(i as int));
                assert(start.take(i + 1).last() == start[i as int]);
            }
            if slots[i] != slot {
                left.push(slots[i]);
            }
            i = i + 1;
        }
        assert(start.take(start.len() as int) =~= start);
        proof {
            filtered_slots_valid(start, slot);
        }
        self.slots = left;
    }

    /// Whether no slot is reserved.
    pub fn slots_empty(&self) -> (r: bool)
        ensures
            r == (self@.slots.len() == 0),
    {
        self.slots.len() == 0
    }

    /// Requests that kill what runs in the reserved slots, in the order the
    /// slots were reserved.
    pub fn kill_requests(&self) -> (r: Vec<Request>)
        ensures
            client::request_views(r@) == kill_asks(self@.slots),
    {
        proof {
            use_type_invariant(self);
        }
        let mut r: Vec<Request> = Vec::new();
        let mut i: usize = 0;
        while i < self.slots.len()
            invariant
                i <= self.slots@.len(),
                valid_slots(self.slots@),
                client::request_views(r@) =~= kill_asks(self.slots@).take(i as int),
            decreases self.slots@.len() - i,
        {
            let ghost before = r@;
            match SlotId::new(self.slots[i]) {
                Ok(slot) => {
                    let kill = Request::kill(slot);
                    r.push(kill);
                    assert(client::request_views(r@) =~= client::request_views(before).push(kill@));
                },
                Err(_) => {
                    assert(self.slots@[i as int] < MAX_SLOTS);
                },
            }
            i = i + 1;
        }
        assert(client::request_views(r@) =~= kill_asks(self.slots@));
        r
    }

    /// Check that a command can run: it is not empty, communication is
    /// active, and a slot is free, which it then has.
    pub fn admit_command(&mut self, command: &str) -> (r: Result<u8, KirkError>)
        ensures
            if command@.len() == 0 {
                &&& r matches Err(e)
                &&& e@ == ErrorView::Communication("command is empty"@)
                &&& final(self)@ == old(self)@
            } else if !is_active(old(self)@) {
                &&& r matches Err(e)
                &&& e@ == ErrorView::Communication("LTX is not running"@)
                &&& final(self)@ == old(self)@
            } else {
                match r {
                    Ok(id) => is_first_free(old(self)@.slots, id) && final(self)@ == (ChannelView {
                        slots: old(self)@.slots.push(id),
                        ..old(self)@
                    }),
                    Err(e) => {
                        &&& forall|id: u8| id < MAX_SLOTS ==> old(self)@.slots.contains(id)
                        &&& e@ == ErrorView::Communication("No execution slots available"@)
                        &&& final(self)@ == old(self)@
                    },
                }
            },
    {
        if command.is_empty() {
            return Err(KirkError::Communication(text::owned("command is empty")));
        }
        if !self.active() {
            return Err(KirkError::Communication(text::owned("LTX is not running")));
        }
        self.reserve_slot()
    }

    /// Request of a file, once the path is safe and communication is active.
    pub fn fetch_request(&self, target_path: &str) -> (r: Result<Request, KirkError>)
        ensures
            match target_path_error(target_path@) {
                Some(x) => r matches Err(e) && e@ == x,
                None => if !is_active(self@) {
                    r matches Err(e) && e@ == ErrorView::Communication(
                        "LTX connection is not present"@,
                    )
                } else {
                    r matches Ok(q) && q@ == request::fresh(Ask::GetFile(target_path@))
                },
            },
    {
        match check_target_path(target_path) {
            Err(e) => Err(e),
            Ok(_) => {
                if !self.active() {
                    return Err(
                        KirkError::Communication(text::owned("LTX connection is not present")),
                    );
                }
                Request::get_file(target_path)
            },
        }
    }

    /// Check that a ping can be sent.
    pub fn ping_request(&self) -> (r: Result<Request, KirkError>)
        ensures
            if is_active(self@) {
                r matches Ok(q) && q@ == request::fresh(Ask::Ping)
            } else {
                r matches Err(e) && e@ == ErrorView::Communication("LTX is not running"@)
            },
    {
        if !self.active() {
            return Err(KirkError::Communication(text::owned("LTX is not running")));
        }
        Ok(Request::ping())
    }
}

/// Text of a configuration option; nothing where it is not given.
pub open spec fn config_text(cfg: Map<Seq<char>, Seq<char>>, key: Seq<char>) -> Seq<char> {
    if cfg.dom().contains(key) {
        cfg[key]
    } else {
        Seq::empty()
    }
}

fn slot_taken(slots: &Vec<u8>, id: u8) -> (r: bool)
    ensures
        r == slots@.contains(id),
{
    let mut i: usize = 0;
    while i < slots.len()
        invariant
            i <= slots@.len(),
            forall|j: int| 0 <= j < i ==> slots@[j] != id,
        decreases slots@.len() - i,
    {
        if slots[i] == id {
            assert(slots@[i as int] == id);
            return true;
        }
        i = i + 1;
    }
    false
}

/// Releasing a slot leaves the others as they were.
proof fn filtered_slots_valid(slots: Seq<u8>, slot: u8)
    requires
        valid_slots(slots),
    ensures
        valid_slots(slots.filter(|id: u8| id != slot)),
    decreases slots.len(),
{
    reveal(Seq::filter);
    let keep = |id: u8| id != slot;
    if slots.len() > 0 {
        let front = slots.drop_last();
        assert(valid_slots(front)) by {
            assert forall|i: int| 0 <= i < front.len() implies #[trigger] front[i] < MAX_SLOTS by {
                assert(front[i] == slots[i]);
            }
        }
        filtered_slots_valid(front, slot);
        let kept = front.filter(keep);
        if slots.last() != slot {
            assert(!kept.contains(slots.last())) by {
                if kept.contains(slots.last()) {
                    front.lemma_filter_contains_rev(keep, slots.last());
                    let i = choose|i: int| 0 <= i < front.len() && front[i] == slots.last();
                    assert(slots[i] == slots[slots.len() - 1]);
                }
            }
            let all = slots.filter(keep);
            assert(all =~= kept.push(slots.last()));
            assert(slots[slots.len() - 1] < MAX_SLOTS);
            assert forall|i: int, j: int| 0 <= i < all.len() && 0 <= j < all.len() && i != j implies
                all[i] != all[j] by {
                if i == kept.len() {
                    assert(kept.contains(kept[j]));
                } else if j == kept.len() {
                    assert(kept.contains(kept[i]));
                }
            }
        }
    }
}

/// Releasing the slot that was just reserved gives back the slots of before.
pub proof fn release_undoes_reserve(slots: Seq<u8>, id: u8)
    requires
        !slots.contains(id),
    ensures
        slots.push(id).filter(|k: u8| k != id) == slots,
{
    reveal(Seq::filter);
    assert(slots.push(id).drop_last() =~= slots);
    keeps_all(slots, id);
}

proof fn keeps_all(slots: Seq<u8>, id: u8)
    requires
        !slots.contains(id),
    ensures
        slots.filter(|k: u8| k != id) == slots,
    decreases slots.len(),
{
    reveal(Seq::filter);
    if slots.len() > 0 {
        assert(!slots.drop_last().contains(id)) by {
            if slots.drop_last().contains(id) {
                let i = choose|i: int|
                    0 <= i < slots.drop_last().len() && slots.drop_last()[i] == id;
                assert(slots[i] == id);
            }
        }
        keeps_all(slots.drop_last(), id);
        assert(slots[slots.len() - 1] != id);
        assert(slots =~= slots.drop_last().push(slots.last()));
    }
}

/// No more than [`MAX_SLOTS`] slots are ever reserved, so that a channel with
/// fewer has one to give.
pub proof fn slot_is_free(slots: Seq<u8>)
    requires
        valid_slots(slots),
        slots.len() < MAX_SLOTS,
    ensures
        exists|id: u8| id < MAX_SLOTS && !slots.contains(id),
{
    if forall|id: u8| id < MAX_SLOTS ==> slots.contains(id) {
        vstd::set_lib::lemma_int_range(0, MAX_SLOTS as int);
        let mapped = slots.map_values(|id: u8| id as int);
        assert(vstd::set_lib::set_int_range(0, MAX_SLOTS as int).subset_of(mapped.to_set())) by {
            assert forall|n: int|
                vstd::set_lib::set_int_range(0, MAX_SLOTS as int).contains(
                    n,
                ) implies mapped.to_set().contains(n) by {
                let i = choose|i: int| 0 <= i < slots.len() && slots[i] == n as u8;
                assert(slots.contains(n as u8));
                assert(mapped[i] == n);
            }
        }
        mapped.lemma_cardinality_of_set();
        vstd::set_lib::lemma_len_subset(
            vstd::set_lib::set_int_range(0, MAX_SLOTS as int),
            mapped.to_set(),
        );
    }
}

/// Build the requests that run `command` in `slot`.
pub fn execute_requests(
    slot: SlotId,
    command: &str,
    cwd: Option<&str>,
    env: Option<&TextMap>,
) -> (r: Result<Vec<Request>, KirkError>)
    ensures
        match command_error(command@, text::opt_str(cwd), env_list(env)) {
            Some(x) => r matches Err(e) && e@ == x,
            None => {
                &&& r matches Ok(v)
                &&& client::request_views(v@) == command_asks(
                    slot.id(),
                    command@,
                    text::opt_str(cwd),
                    env_list(env),
                ).map_values(|a: Ask| asked(a))
            },
        },
{
    let id: u8 = slot.get();
    let ghost all = command_asks(id, command@, text::opt_str(cwd), env_list(env));
    let ghost place: Seq<Ask> = match text::opt_str(cwd) {
        Some(path) => seq![Ask::Cwd(id, path)],
        None => Seq::empty(),
    };
    let ghost vars = env_list(env).map_values(|e: EntryView| Ask::Env(id, e.0, e.1));
    let mut r: Vec<Request> = Vec::new();
    match cwd {
        Some(path) => match Request::cwd(Some(id), path) {
            Ok(request) => {
                r.push(request);
            },
            Err(e) => {
                assert(path@ =~= Seq::<char>::empty());
                return Err(e);
            },
        },
        None => {},
    }
    assert(client::request_views(r@) =~= place.map_values(|a: Ask| asked(a)));
    match env {
        Some(map) => {
            let mut i: usize = 0;
            let n: usize = map.len();
            assert(place + vars.take(0) =~= place);
            while i < n
                invariant
                    i <= n,
                    n == map.list().len(),
                    env == Some(map),
                    id == slot.id(),
                    id <= MAX_SLOTS,
                    text::opt_str(cwd) != Some(Seq::<char>::empty()),
                    env_error(map.list().take(i as int)) is None,
                    vars == env_list(env).map_values(|e: EntryView| Ask::Env(id, e.0, e.1)),
                    client::request_views(r@) == (place + vars.take(i as int)).map_values(
                        |a: Ask| asked(a),
                    ),
                decreases n - i,
            {
                assert(map.list().take(i + 1).drop_last() =~= map.list().take(i as int));
                assert(map.list().take(i + 1).last() == map.list()[i as int]);
                match Request::env(Some(id), map.key_at(i), map.value_at(i)) {
                    Ok(request) => {
                        let ghost before = r@;
                        r.push(request);
                        assert(client::request_views(r@) =~= client::request_views(before).push(
                            request@,
                        ));
                        assert(place + vars.take(i + 1) =~= (place + vars.take(i as int)).push(
                            vars[i as int],
                        ));
                        assert((place + vars.take(i + 1)).map_values(|a: Ask| asked(a)) =~= (place
                            + vars.take(i as int)).map_values(|a: Ask| asked(a)).push(request@));
                    },
                    Err(e) => {
                        proof {
                            env_error_stays(map.list(), i + 1);
                        }
                        return Err(e);
                    },
                }
                i = i + 1;
            }
            assert(map.list().take(n as int) =~= map.list());
            assert(vars.take(n as int) =~= vars);
        },
        None => {
            assert(place + vars =~= place);
        },
    }
    match Request::execute_with_stdout(slot, command) {
        Ok(request) => {
            let ghost before = r@;
            r.push(request);
            assert(client::request_views(r@) =~= client::request_views(before).push(request@));
            assert(all.map_values(|a: Ask| asked(a)) =~= (place + vars).map_values(
                |a: Ask| asked(a),
            ).push(request@));
            Ok(r)
        },
        Err(e) => Err(e),
    }
}

proof fn env_error_stays(env: Seq<EntryView>, n: int)
    requires
        0 <= n <= env.len(),
        env_error(env.take(n)) is Some,
    ensures
        env_error(env) == env_error(env.take(n)),
    decreases env.len() - n,
{
    if n == env.len() {
        assert(env.take(n) =~= env);
    } else {
        assert(env.take(n + 1).drop_last() =~= env.take(n));
        env_error_stays(env, n + 1);
    }
}

/// Result of a command from the replies to its requests.
pub fn command_result(command: &str, replies: Vec<Reply>, exec_time: u64) -> (r: Result<
    CmdResult,
    KirkError,
>)
    ensures
        match last_reply(client::reply_views(replies@)) {
            Some(ReplyView::Execute(_, _, status, stdout)) => {
                &&& r matches Ok(c)
                &&& c.command@ == command@
                &&& c.returncode == status
                &&& c.stdout@ == stdout
                &&& c.exec_time == exec_time
            },
            _ => r matches Err(e) && e@ == ErrorView::Communication(
                "LTX returned an unexpected reply for EXEC"@,
            ),
        },
{
    let mut replies = replies;
    assert(replies@.len() > 0 ==> client::reply_views(replies@).last() == replies@.last()@);
    match replies.pop() {
        Some(Reply::Execute { time_ns: _, si_code: _, si_status, stdout }) => Ok(
            CmdResult { command: command.to_owned(), returncode: si_status, stdout, exec_time },
        ),
        _ => Err(
            KirkError::Communication(text::owned("LTX returned an unexpected reply for EXEC")),
        ),
    }
}

/// Contents of a file from the reply to its request.
pub fn fetched_file(replies: Vec<Reply>) -> (r: Result<Vec<u8>, KirkError>)
    ensures
        match last_reply(client::reply_views(replies@)) {
            Some(ReplyView::GetFile(_, data)) => r matches Ok(v) && v@ == data,
            _ => r matches Err(e) && e@ == ErrorView::Communication(
                "LTX returned an unexpected reply for GET_FILE"@,
            ),
        },
{
    let mut replies = replies;
    assert(replies@.len() > 0 ==> client::reply_views(replies@).last() == replies@.last()@);
    match replies.pop() {
        Some(Reply::GetFile { path: _, data }) => Ok(data),
        _ => Err(
            KirkError::Communication(text::owned("LTX returned an unexpected reply for GET_FILE")),
        ),
    }
}

/// A path with a part that leads upwards is refused, wherever the part stands.
pub proof fn paths_do_not_lead_upwards(before: Seq<char>, after: Seq<char>)
    ensures
        target_path_error(".."@) is Some,
        target_path_error(".."@ + seq!['/'] + after) is Some,
        target_path_error(before + seq!['/'] + ".."@) is Some,
        target_path_error(before + seq!['/'] + (".."@ + seq!['/'] + after)) is Some,
        target_path_error(Seq::empty()) is Some,
        before.contains('\0') ==> target_path_error(before) is Some,
{
    reveal_strlit("..");
    assert(!".."@.contains('/'));
    text::one_piece(".."@, '/');
    assert(seq![".."@][0] == ".."@);
    text::pieces_of_concat(".."@, after, '/');
    text::pieces_of_concat(before, ".."@, '/');
    let tail = ".."@ + seq!['/'] + after;
    text::pieces_of_concat(before, tail, '/');
    let p = text::pieces(before, '/');
    let q = text::pieces(after, '/');
    assert((seq![".."@] + q)[0] == ".."@);
    assert((p + seq![".."@])[p.len() as int] == ".."@);
    assert((p + (seq![".."@] + q))[p.len() as int] == ".."@);
}

/// A path is taken where both of its halves are.
pub proof fn paths_are_taken_part_by_part(before: Seq<char>, after: Seq<char>)
    requires
        target_path_error(before) is None,
        target_path_error(after) is None,
    ensures
        target_path_error(before + seq!['/'] + after) is None,
{
    let path = before + seq!['/'] + after;
    text::pieces_of_concat(before, after, '/');
    let p = text::pieces(before, '/');
    let q = text::pieces(after, '/');
    if (p + q).contains(".."@) {
        let i = choose|i: int| 0 <= i < (p + q).len() && (p + q)[i] == ".."@;
        if i < p.len() {
            assert(p[i] == ".."@);
        } else {
            assert(q[i - p.len()] == ".."@);
        }
    }
    if path.contains('\0') {
        let i = choose|i: int| 0 <= i < path.len() && path[i] == '\0';
        if i < before.len() {
            assert(before[i] == '\0');
        } else {
            assert(after[i - before.len() - 1] == '\0');
        }
    }
}

/// A path without slashes is taken unless it is empty, leads upwards or holds
/// a NUL byte.
pub proof fn plain_names_are_taken(name: Seq<char>)
    requires
        name.len() > 0,
        !name.contains('/'),
        !name.contains('\0'),
        name != ".."@,
    ensures
        target_path_error(name) is None,
{
    text::one_piece(name, '/');
}

/// A command runs last, after its directory is set and then its variables, in
/// their order, all in the same slot.
pub proof fn commands_run_last(
    slot: u8,
    command: Seq<char>,
    dir: Seq<char>,
    key: Seq<char>,
    value: Seq<char>,
    env: Seq<EntryView>,
)
    ensures
        command_asks(slot, command, None, Seq::empty()) == seq![Ask::Execute(slot, command)],
        command_asks(slot, command, Some(dir), env) == seq![Ask::Cwd(slot, dir)] + command_asks(
            slot,
            command,
            None,
            env,
        ),
        command_asks(slot, command, None, seq![(key, value)] + env) == seq![
            Ask::Env(slot, key, value),
        ] + command_asks(slot, command, None, env),
        asked(Ask::Execute(slot, command)).streaming,
        !asked(Ask::Env(slot, key, value)).streaming,
        !asked(Ask::Cwd(slot, dir)).streaming,
        asked(Ask::Execute(slot, command)).ask == Ask::Execute(slot, command),
{
    let f = |e: EntryView| Ask::Env(slot, e.0, e.1);
    let none = Seq::<Ask>::empty();
    assert(command_asks(slot, command, None, Seq::empty()) =~= seq![Ask::Execute(slot, command)]);
    assert(command_asks(slot, command, Some(dir), env) =~= seq![Ask::Cwd(slot, dir)]
        + command_asks(slot, command, None, env));
    assert((seq![(key, value)] + env).map_values(f) =~= seq![Ask::Env(slot, key, value)]
        + env.map_values(f));
    assert(command_asks(slot, command, None, seq![(key, value)] + env) =~= seq![
        Ask::Env(slot, key, value),
    ] + command_asks(slot, command, None, env));
}

/// Nothing that a command is made of may be empty, and the first that is is
/// told of.
pub proof fn empty_parts_are_refused(
    command: Seq<char>,
    dir: Option<Seq<char>>,
    key: Seq<char>,
    value: Seq<char>,
    env: Seq<EntryView>,
)
    ensures
        command_error(command, Some(Seq::empty()), env) == Some(ErrorView::Ltx("path is empty"@)),
        command_error(command, dir, env) is None ==> command.len() > 0 && dir != Some(
            Seq::<char>::empty(),
        ) && env_error(env) is None,
        command_error(command, None, Seq::empty()) is None <==> command.len() > 0,
        key.len() == 0 ==> env_error(seq![(key, value)] + env) == Some(
            ErrorView::Ltx("key is empty"@),
        ),
        key.len() > 0 && value.len() == 0 ==> env_error(seq![(key, value)] + env) == Some(
            ErrorView::Ltx("value is empty"@),
        ),
        key.len() > 0 && value.len() > 0 ==> env_error(seq![(key, value)] + env) == env_error(env),
    decreases env.len(),
{
    let all = seq![(key, value)] + env;
    if env.len() == 0 {
        assert(all.drop_last() =~= env);
        assert(all.last() == (key, value));
    } else {
        empty_parts_are_refused(command, dir, key, value, env.drop_last());
        assert(all.drop_last() =~= seq![(key, value)] + env.drop_last());
        assert(all.last() == env.last());
    }
}

/// Everything that runs is killed, slot by slot.
pub proof fn every_slot_is_killed(slots: Seq<u8>, i: int)
    requires
        0 <= i < slots.len(),
    ensures
        kill_asks(slots).len() == slots.len(),
        kill_asks(slots)[i].ask == Ask::Kill(slots[i]),
        !kill_asks(slots)[i].completed,
{
}

/// The last reply tells how a command ended.
pub proof fn last_reply_counts(replies: Seq<ReplyView>, reply: ReplyView)
    ensures
        last_reply(replies.push(reply)) == Some(reply),
        last_reply(Seq::empty()) is None,
{
}

} // verus!
