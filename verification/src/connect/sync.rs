//! The sync protocol between two machines, as state machines: the host and
//! the client each take an event (a message received, the local headers,
//! the latest entry of a local file) and answer with the next state and the
//! actions to perform, in order.
//!
//! Protocol:
//! Client: Hash -> Host: Ok
//! Client: Header -> Host: Ok
//! Repeat above until all headers sent
//! Client: Ok
//! Repeat below until files sent
//!     Host: Request File
//!     Client: File
//! Host: Ok -> Client: Ok
//! Repeat below until files sent
//!     Host: File Name
//!     Client: Ok
//!     Host: File
//!     Client: Ok
//! Host: Ok -> Client: Exit

use vstd::prelude::*;
use vstd::string::StringExecFns;
use crate::connect::{clone_header, diff, get_diff, headers_view, Header, Message, MessageView};
use crate::entry::{Entry, EntryView};
use crate::text::{append_chars, chars_of, str_equal, string_from_chars};

verus! {

/// A header's name and time.
pub type HeaderView = (Seq<char>, (i64, u32));

/// What happened since the last actions.
pub enum SyncEvent {
    /// A message arrived from the other side.
    Received(Message),
    /// The headers of this machine's files.
    Headers(Vec<Header>),
    /// The latest entry of the file that was looked up, if the file exists.
    Latest(Option<Entry>),
}

/// What a [SyncEvent] holds.
pub enum SyncEventView {
    Received(MessageView),
    Headers(Seq<HeaderView>),
    Latest(Option<EntryView>),
}

impl View for SyncEvent {
    type V = SyncEventView;

    open spec fn view(&self) -> SyncEventView {
        match self {
            SyncEvent::Received(m) => SyncEventView::Received(m@),
            SyncEvent::Headers(h) => SyncEventView::Headers(headers_view(h@)),
            SyncEvent::Latest(e) => SyncEventView::Latest(
                match e {
                    Some(x) => Some(x@),
                    None => None,
                },
            ),
        }
    }
}

/// Something to do for the protocol.
pub enum SyncAction {
    /// Send a message to the other side.
    Send(Message),
    /// Wait for the next message (answer with `SyncEvent::Received`).
    Receive,
    /// Collect this machine's headers (answer with `SyncEvent::Headers`).
    LoadHeaders,
    /// Add the entry to the file of this name, or make the file.
    StoreEntry(String, Entry),
    /// Find the latest entry of the file of this name (answer with
    /// `SyncEvent::Latest`).
    LookupLatest(String),
    /// Tell the user.
    Log(String),
    /// The sync is over, with this outcome.
    Finish(Result<(), String>),
}

/// What a [SyncAction] holds.
pub enum SyncActionView {
    Send(MessageView),
    Receive,
    LoadHeaders,
    StoreEntry(Seq<char>, EntryView),
    LookupLatest(Seq<char>),
    Log(Seq<char>),
    Finish(Result<(), Seq<char>>),
}

impl View for SyncAction {
    type V = SyncActionView;

    open spec fn view(&self) -> SyncActionView {
        match self {
            SyncAction::Send(m) => SyncActionView::Send(m@),
            SyncAction::Receive => SyncActionView::Receive,
            SyncAction::LoadHeaders => SyncActionView::LoadHeaders,
            SyncAction::StoreEntry(n, e) => SyncActionView::StoreEntry(n@, e@),
            SyncAction::LookupLatest(n) => SyncActionView::LookupLatest(n@),
            SyncAction::Log(s) => SyncActionView::Log(s@),
            SyncAction::Finish(r) => SyncActionView::Finish(
                match r {
                    Ok(()) => Ok(()),
                    Err(e) => Err(e@),
                },
            ),
        }
    }
}

/// The actions' views.
pub open spec fn actions_view(v: Seq<SyncAction>) -> Seq<SyncActionView> {
    v.map_values(|a: SyncAction| a@)
}

/// A text followed by a name in quotes.
pub open spec fn quoted(prefix: Seq<char>, name: Seq<char>) -> Seq<char> {
    prefix + name + "'"@
}

/// The answer to a message out of turn: `Invalid`, and the sync fails.
pub open spec fn comm_error() -> Seq<SyncActionView> {
    seq![
        SyncActionView::Send(MessageView::Invalid),
        SyncActionView::Finish(Err("Communication Error"@)),
    ]
}

// ------------------------------------------------------------------
// The host
// ------------------------------------------------------------------

/// Where the host is in the protocol.
pub enum HostStateView {
    /// Waiting for the client's hash.
    AwaitHash,
    /// Collecting the client's headers.
    CollectHeaders(Seq<HeaderView>),
    /// Waiting for this machine's headers, with the client's.
    AwaitHostHeaders(Seq<HeaderView>),
    /// Waiting for the entry of request `i`, with the files to send after.
    AwaitEntry(Seq<HeaderView>, nat, Seq<HeaderView>),
    /// Waiting for the latest entry of file `j` to send.
    AwaitLatest(Seq<HeaderView>, nat),
    /// Waiting for the client to accept the name of file `j`.
    AwaitNameAck(Seq<HeaderView>, nat, EntryView),
    /// Waiting for the client to accept file `j`.
    AwaitFileAck(Seq<HeaderView>, nat),
    /// The sync is over.
    Done,
}

/// Looking up file `j` of those to send, or finishing when all are sent.
pub open spec fn host_lookup(sends: Seq<HeaderView>, j: nat) -> (HostStateView, Seq<SyncActionView>) {
    if j < sends.len() {
        (HostStateView::AwaitLatest(sends, j), seq![SyncActionView::LookupLatest(sends[j as int].0)])
    } else {
        (
            HostStateView::Done,
            seq![
                SyncActionView::Send(MessageView::Exit),
                SyncActionView::Log("Sync complete"@),
                SyncActionView::Finish(Ok(())),
            ],
        )
    }
}

/// Requesting file `i` of those the host needs, or going on to sending.
pub open spec fn host_request(reqs: Seq<HeaderView>, i: nat, sends: Seq<HeaderView>) -> (
    HostStateView,
    Seq<SyncActionView>,
) {
    if i < reqs.len() {
        let name = reqs[i as int].0;
        (
            HostStateView::AwaitEntry(reqs, i, sends),
            seq![
                SyncActionView::Log(quoted("Requesting file '"@, name)),
                SyncActionView::Send(MessageView::Request(name)),
                SyncActionView::Receive,
            ],
        )
    } else {
        let next = host_lookup(sends, 0);
        (next.0, seq![SyncActionView::Log("Sending files"@)] + next.1)
    }
}

/// What the host does on an event: its next state and its actions.
pub open spec fn host_step(user_hash: Seq<char>, s: HostStateView, e: SyncEventView) -> (
    HostStateView,
    Seq<SyncActionView>,
) {
    match (s, e) {
        (HostStateView::AwaitHash, SyncEventView::Received(MessageView::Hash(h))) => if h
            == user_hash {
            (
                HostStateView::CollectHeaders(seq![]),
                seq![
                    SyncActionView::Send(MessageView::Ack),
                    SyncActionView::Log("Matching user found"@),
                    SyncActionView::Log("Getting file headers"@),
                    SyncActionView::Receive,
                ],
            )
        } else {
            (
                HostStateView::Done,
                seq![
                    SyncActionView::Send(MessageView::Error("Not matching user"@)),
                    SyncActionView::Finish(Err("Not matching user"@)),
                ],
            )
        },
        (HostStateView::AwaitHash, SyncEventView::Received(_)) => (
            HostStateView::CollectHeaders(seq![]),
            seq![
                SyncActionView::Send(MessageView::Invalid),
                SyncActionView::Log("Getting file headers"@),
                SyncActionView::Receive,
            ],
        ),
        (HostStateView::CollectHeaders(hs), SyncEventView::Received(m)) => match m {
            MessageView::Ack => (
                HostStateView::AwaitHostHeaders(hs),
                seq![
                    SyncActionView::Log("Calculating file differences"@),
                    SyncActionView::LoadHeaders,
                ],
            ),
            MessageView::Header(n, d) => (
                HostStateView::CollectHeaders(hs.push((n, d))),
                seq![SyncActionView::Send(MessageView::Ack), SyncActionView::Receive],
            ),
            _ => (HostStateView::Done, comm_error()),
        },
        (HostStateView::AwaitHostHeaders(client), SyncEventView::Headers(host)) => {
            let next = host_request(diff(client, host), 0, diff(host, client));
            (next.0, seq![SyncActionView::Log("Requesting files"@)] + next.1)
        },
        (HostStateView::AwaitEntry(reqs, i, sends), SyncEventView::Received(m)) => match m {
            MessageView::Entry(entry) => {
                let next = host_request(reqs, i + 1, sends);
                (
                    next.0,
                    seq![
                        SyncActionView::StoreEntry(reqs[i as int].0, entry),
                        SyncActionView::Send(MessageView::Ack),
                    ] + next.1,
                )
            },
            _ => (HostStateView::Done, comm_error()),
        },
        (HostStateView::AwaitLatest(sends, j), SyncEventView::Latest(latest)) => match latest {
            Some(entry) => (
                HostStateView::AwaitNameAck(sends, j, entry),
                seq![
                    SyncActionView::Log(quoted("Sending file '"@, sends[j as int].0)),
                    SyncActionView::Send(MessageView::Name(sends[j as int].0)),
                    SyncActionView::Receive,
                ],
            ),
            None => (HostStateView::AwaitFileAck(sends, j), seq![SyncActionView::Receive]),
        },
        (HostStateView::AwaitNameAck(sends, j, entry), SyncEventView::Received(m)) => match m {
            MessageView::Ack => (
                HostStateView::AwaitFileAck(sends, j),
                seq![SyncActionView::Send(MessageView::Entry(entry)), SyncActionView::Receive],
            ),
            _ => (HostStateView::Done, comm_error()),
        },
        (HostStateView::AwaitFileAck(sends, j), SyncEventView::Received(m)) => match m {
            MessageView::Ack => host_lookup(sends, j + 1),
            _ => (HostStateView::Done, comm_error()),
        },
        _ => (HostStateView::Done, seq![]),
    }
}

/// The event that the host waits for in a state.
pub open spec fn host_expects(s: HostStateView, e: SyncEventView) -> bool {
    match s {
        HostStateView::AwaitHostHeaders(_) => e is Headers,
        HostStateView::AwaitLatest(_, _) => e is Latest,
        HostStateView::Done => false,
        _ => e is Received,
    }
}

/// The state's indices point into its lists.
pub open spec fn host_state_ok(s: HostStateView) -> bool {
    match s {
        HostStateView::AwaitEntry(reqs, i, _) => i < reqs.len(),
        HostStateView::AwaitLatest(sends, j) => j < sends.len(),
        HostStateView::AwaitNameAck(sends, j, _) => j < sends.len(),
        HostStateView::AwaitFileAck(sends, j) => j < sends.len(),
        _ => true,
    }
}

/// Where the host is in the protocol.
pub enum HostState {
    AwaitHash,
    CollectHeaders(Vec<Header>),
    AwaitHostHeaders(Vec<Header>),
    AwaitEntry(Vec<Header>, usize, Vec<Header>),
    AwaitLatest(Vec<Header>, usize),
    AwaitNameAck(Vec<Header>, usize, Entry),
    AwaitFileAck(Vec<Header>, usize),
    Done,
}

impl View for HostState {
    type V = HostStateView;

    open spec fn view(&self) -> HostStateView {
        match self {
            HostState::AwaitHash => HostStateView::AwaitHash,
            HostState::CollectHeaders(hs) => HostStateView::CollectHeaders(headers_view(hs@)),
            HostState::AwaitHostHeaders(hs) => HostStateView::AwaitHostHeaders(headers_view(hs@)),
            HostState::AwaitEntry(r, i, s) => HostStateView::AwaitEntry(
                headers_view(r@),
                *i as nat,
                headers_view(s@),
            ),
            HostState::AwaitLatest(s, j) => HostStateView::AwaitLatest(headers_view(s@), *j as nat),
            HostState::AwaitNameAck(s, j, e) => HostStateView::AwaitNameAck(
                headers_view(s@),
                *j as nat,
                e@,
            ),
            HostState::AwaitFileAck(s, j) => HostStateView::AwaitFileAck(headers_view(s@), *j as nat),
            HostState::Done => HostStateView::Done,
        }
    }
}

/// The host side of a sync.
pub struct HostSync {
    user_hash: String,
    state: HostState,
}

/// What a [HostSync] holds.
pub struct HostSyncView {
    pub user_hash: Seq<char>,
    pub state: HostStateView,
}

impl View for HostSync {
    type V = HostSyncView;

    closed spec fn view(&self) -> HostSyncView {
        HostSyncView { user_hash: self.user_hash@, state: self.state@ }
    }
}

/// A text followed by a name in quotes.
fn quote(prefix: &str, name: &str) -> (r: String)
    ensures
        r@ == quoted(prefix@, name@),
{
    let mut out = chars_of(prefix);
    let nc = chars_of(name);
    append_chars(&mut out, nc.as_slice());
    let q = chars_of("'");
    append_chars(&mut out, q.as_slice());
    string_from_chars(out.as_slice())
}

/// Appends one action.
fn push_action(v: &mut Vec<SyncAction>, a: SyncAction)
    ensures
        actions_view(final(v)@) == actions_view(old(v)@).push(a@),
{
    let ghost before = v@;
    v.push(a);
    assert(actions_view(v@) =~= actions_view(before).push(a@));
}

/// Appends the actions that answer a message out of turn.
fn add_comm_error(v: &mut Vec<SyncAction>)
    ensures
        actions_view(final(v)@) == actions_view(old(v)@) + comm_error(),
{
    let ghost before = actions_view(v@);
    push_action(v, SyncAction::Send(Message::Invalid));
    push_action(v, SyncAction::Finish(Err(String::from_str("Communication Error"))));
    assert(actions_view(v@) =~= before + comm_error());
}

fn clone_headers(v: &Vec<Header>) -> (r: Vec<Header>)
    ensures
        headers_view(r@) == headers_view(v@),
{
    let mut out: Vec<Header> = Vec::new();
    let mut i: usize = 0;
    while i < v.len()
        invariant
            i <= v@.len(),
            headers_view(out@) == headers_view(v@).take(i as int),
        decreases v@.len() - i,
    {
        let h = clone_header(&v[i]);
        let ghost before = out@;
        out.push(h);
        assert(headers_view(out@) =~= headers_view(before).push(headers_view(v@)[i as int]));
        assert(headers_view(v@).take(i + 1) =~= headers_view(v@).take(i as int).push(
            headers_view(v@)[i as int],
        ));
        i += 1;
    }
    assert(headers_view(v@).take(i as int) =~= headers_view(v@));
    out
}

/// The host's state and actions for looking up file `j`.
fn host_lookup_exec(sends: Vec<Header>, j: usize, v: &mut Vec<SyncAction>) -> (r: HostState)
    ensures
        r@ == host_lookup(headers_view(sends@), j as nat).0,
        actions_view(final(v)@) == actions_view(old(v)@) + host_lookup(headers_view(sends@), j as nat).1,
        host_state_ok(r@),
{
    let ghost before = actions_view(v@);
    if j < sends.len() {
        let name = sends[j].0.clone();
        assert(headers_view(sends@)[j as int].0 == name@);
        push_action(v, SyncAction::LookupLatest(name));
        assert(actions_view(v@) =~= before + host_lookup(headers_view(sends@), j as nat).1);
        HostState::AwaitLatest(sends, j)
    } else {
        push_action(v, SyncAction::Send(Message::Exit));
        push_action(v, SyncAction::Log(String::from_str("Sync complete")));
        push_action(v, SyncAction::Finish(Ok(())));
        assert(actions_view(v@) =~= before + host_lookup(headers_view(sends@), j as nat).1);
        HostState::Done
    }
}

/// The host's state and actions for request `i`.
fn host_request_exec(reqs: Vec<Header>, i: usize, sends: Vec<Header>, v: &mut Vec<SyncAction>) -> (r: HostState)
    ensures
        r@ == host_request(headers_view(reqs@), i as nat, headers_view(sends@)).0,
        actions_view(final(v)@) == actions_view(old(v)@) + host_request(
            headers_view(reqs@),
            i as nat,
            headers_view(sends@),
        ).1,
        host_state_ok(r@),
{
    let ghost before = actions_view(v@);
    if i < reqs.len() {
        let name = reqs[i].0.clone();
        assert(headers_view(reqs@)[i as int].0 == name@);
        push_action(v, SyncAction::Log(quote("Requesting file '", name.as_str())));
        push_action(v, SyncAction::Send(Message::Request(name)));
        push_action(v, SyncAction::Receive);
        assert(actions_view(v@) =~= before + host_request(
            headers_view(reqs@),
            i as nat,
            headers_view(sends@),
        ).1);
        HostState::AwaitEntry(reqs, i, sends)
    } else {
        push_action(v, SyncAction::Log(String::from_str("Sending files")));
        let ghost mid = actions_view(v@);
        let r = host_lookup_exec(sends, 0, v);
        assert(actions_view(v@) =~= before + host_request(
            headers_view(reqs@),
            i as nat,
            headers_view(sends@),
        ).1);
        r
    }
}

impl HostSync {
    /// The host's side, before anything arrives.
    pub fn new(user_hash: String) -> (r: HostSync)
        ensures
            r@ == (HostSyncView { user_hash: user_hash@, state: HostStateView::AwaitHash }),
    {
        HostSync { user_hash, state: HostState::AwaitHash }
    }

    /// The first actions: wait for the client's hash.
    pub fn start(&self) -> (r: Vec<SyncAction>)
        ensures
            actions_view(r@) == seq![SyncActionView::Receive],
    {
        let mut v: Vec<SyncAction> = Vec::new();
        push_action(&mut v, SyncAction::Receive);
        assert(actions_view(v@) =~= seq![SyncActionView::Receive]);
        v
    }

    /// The host is waiting for this kind of event.
    pub open spec fn expects(&self, e: SyncEventView) -> bool {
        host_expects(self@.state, e) && host_state_ok(self@.state)
    }

    /// Whether the sync is over.
    pub fn is_done(&self) -> (r: bool)
        ensures
            r == (self@.state is Done),
    {
        match self.state {
            HostState::Done => true,
            _ => false,
        }
    }

    /// Takes an event and gives the actions that follow.
    pub fn step(&mut self, event: SyncEvent) -> (r: Vec<SyncAction>)
        requires
            old(self).expects(event@),
        ensures
            final(self)@.user_hash == old(self)@.user_hash,
            (final(self)@.state, actions_view(r@)) == host_step(
                old(self)@.user_hash,
                old(self)@.state,
                event@,
            ),
            host_state_ok(final(self)@.state),
    {
        let mut v: Vec<SyncAction> = Vec::new();
        let mut state = HostState::Done;
        std::mem::swap(&mut state, &mut self.state);
        let ghost s = state@;
        assert(s == old(self)@.state);
        let ghost e = event@;
        let next = match state {
            HostState::AwaitHash => {
                match event {
                    SyncEvent::Received(Message::Hash(h)) => {
                        if str_equal(h.as_str(), self.user_hash.as_str()) {
                            push_action(&mut v, SyncAction::Send(Message::Ack));
                            push_action(&mut v, SyncAction::Log(String::from_str("Matching user found")));
                            push_action(&mut v, SyncAction::Log(String::from_str("Getting file headers")));
                            push_action(&mut v, SyncAction::Receive);
                            assert(actions_view(v@) =~= host_step(self.user_hash@, s, e).1);
                            let hs: Vec<Header> = Vec::new();
                            assert(headers_view(hs@) =~= Seq::<HeaderView>::empty());
                            HostState::CollectHeaders(hs)
                        } else {
                            push_action(
                                &mut v,
                                SyncAction::Send(Message::Error(String::from_str("Not matching user"))),
                            );
                            push_action(&mut v, SyncAction::Finish(Err(String::from_str("Not matching user"))));
                            assert(actions_view(v@) =~= host_step(self.user_hash@, s, e).1);
                            HostState::Done
                        }
                    },
                    _ => {
                        push_action(&mut v, SyncAction::Send(Message::Invalid));
                        push_action(&mut v, SyncAction::Log(String::from_str("Getting file headers")));
                        push_action(&mut v, SyncAction::Receive);
                        assert(actions_view(v@) =~= host_step(self.user_hash@, s, e).1);
                        let hs: Vec<Header> = Vec::new();
                        assert(headers_view(hs@) =~= Seq::<HeaderView>::empty());
                        HostState::CollectHeaders(hs)
                    },
                }
            },
            HostState::CollectHeaders(mut hs) => {
                match event {
                    SyncEvent::Received(Message::Ack) => {
                        push_action(&mut v, SyncAction::Log(String::from_str("Calculating file differences")));
                        push_action(&mut v, SyncAction::LoadHeaders);
                        assert(actions_view(v@) =~= host_step(self.user_hash@, s, e).1);
                        HostState::AwaitHostHeaders(hs)
                    },
                    SyncEvent::Received(Message::Header(h)) => {
                        let ghost before = headers_view(hs@);
                        let ghost hv = (h.0@, h.1@);
                        hs.push(h);
                        assert(headers_view(hs@) =~= before.push(hv));
                        push_action(&mut v, SyncAction::Send(Message::Ack));
                        push_action(&mut v, SyncAction::Receive);
                        assert(actions_view(v@) =~= host_step(self.user_hash@, s, e).1);
                        HostState::CollectHeaders(hs)
                    },
                    _ => {
                        add_comm_error(&mut v);
                        assert(actions_view(v@) =~= host_step(self.user_hash@, s, e).1);
                        HostState::Done
                    },
                }
            },
            HostState::AwaitHostHeaders(client) => {
                match event {
                    SyncEvent::Headers(host) => {
                        let reqs = get_diff(&client, &host);
                        let sends = get_diff(&host, &client);
                        push_action(&mut v, SyncAction::Log(String::from_str("Requesting files")));
                        let r = host_request_exec(reqs, 0, sends, &mut v);
                        assert(actions_view(v@) =~= host_step(self.user_hash@, s, e).1);
                        r
                    },
                    _ => HostState::Done,
                }
            },
            HostState::AwaitEntry(reqs, i, sends) => {
                assert(i < reqs.len());
                match event {
                    SyncEvent::Received(Message::Entry(entry)) => {
                        let name = reqs[i].0.clone();
                        assert(headers_view(reqs@)[i as int].0 == name@);
                        push_action(&mut v, SyncAction::StoreEntry(name, entry));
                        push_action(&mut v, SyncAction::Send(Message::Ack));
                        let r = host_request_exec(reqs, i + 1, sends, &mut v);
                        assert(actions_view(v@) =~= host_step(self.user_hash@, s, e).1);
                        r
                    },
                    _ => {
                        add_comm_error(&mut v);
                        assert(actions_view(v@) =~= host_step(self.user_hash@, s, e).1);
                        HostState::Done
                    },
                }
            },
            HostState::AwaitLatest(sends, j) => {
                match event {
                    SyncEvent::Latest(Some(entry)) => {
                        let name = sends[j].0.clone();
                        assert(headers_view(sends@)[j as int].0 == name@);
                        push_action(&mut v, SyncAction::Log(quote("Sending file '", name.as_str())));
                        push_action(&mut v, SyncAction::Send(Message::Name(name)));
                        push_action(&mut v, SyncAction::Receive);
                        assert(actions_view(v@) =~= host_step(self.user_hash@, s, e).1);
                        HostState::AwaitNameAck(sends, j, entry)
                    },
                    _ => {
                        push_action(&mut v, SyncAction::Receive);
                        assert(actions_view(v@) =~= host_step(self.user_hash@, s, e).1);
                        HostState::AwaitFileAck(sends, j)
                    },
                }
            },
            HostState::AwaitNameAck(sends, j, entry) => {
                match event {
                    SyncEvent::Received(Message::Ack) => {
                        push_action(&mut v, SyncAction::Send(Message::Entry(entry)));
                        push_action(&mut v, SyncAction::Receive);
                        assert(actions_view(v@) =~= host_step(self.user_hash@, s, e).1);
                        HostState::AwaitFileAck(sends, j)
                    },
                    _ => {
                        add_comm_error(&mut v);
                        assert(actions_view(v@) =~= host_step(self.user_hash@, s, e).1);
                        HostState::Done
                    },
                }
            },
            HostState::AwaitFileAck(sends, j) => {
                assert(j < sends.len());
                match event {
                    SyncEvent::Received(Message::Ack) => {
                        let r = host_lookup_exec(sends, j + 1, &mut v);
                        assert(actions_view(v@) =~= host_step(self.user_hash@, s, e).1);
                        r
                    },
                    _ => {
                        add_comm_error(&mut v);
                        assert(actions_view(v@) =~= host_step(self.user_hash@, s, e).1);
                        HostState::Done
                    },
                }
            },
            HostState::Done => HostState::Done,
        };
        self.state = next;
        assert(self@.state == host_step(self@.user_hash, s, e).0);
        v
    }
}

// ------------------------------------------------------------------
// The client
// ------------------------------------------------------------------

/// Where the client is in the protocol.
pub enum ClientStateView {
    /// Waiting for the host to accept the hash.
    AwaitHashAck,
    /// Waiting for this machine's headers.
    AwaitClientHeaders,
    /// Waiting for the host to accept header `i`.
    AwaitHeaderAck(Seq<HeaderView>, nat),
    /// Answering the host's requests and files.
    Serving,
    /// Waiting for the latest entry of the requested file of this name.
    AwaitLatest(Seq<char>),
    /// Waiting for the host to accept a sent file.
    AwaitEntryAck,
    /// Waiting for the entry of the announced file of this name.
    AwaitIncoming(Seq<char>),
    /// The sync is over.
    Done,
}

/// Sending header `i`, or telling the host that all are sent.
pub open spec fn client_send_header(hs: Seq<HeaderView>, i: nat) -> (ClientStateView, Seq<SyncActionView>) {
    if i < hs.len() {
        (
            ClientStateView::AwaitHeaderAck(hs, i),
            seq![
                SyncActionView::Send(MessageView::Header(hs[i as int].0, hs[i as int].1)),
                SyncActionView::Receive,
            ],
        )
    } else {
        (ClientStateView::Serving, seq![SyncActionView::Send(MessageView::Ack), SyncActionView::Receive])
    }
}

/// What the client does on an event: its next state and its actions.
pub open spec fn client_step(s: ClientStateView, e: SyncEventView) -> (ClientStateView, Seq<SyncActionView>) {
    match (s, e) {
        (ClientStateView::AwaitHashAck, SyncEventView::Received(m)) => match m {
            MessageView::Ack => (
                ClientStateView::AwaitClientHeaders,
                seq![
                    SyncActionView::Log("Connection established"@),
                    SyncActionView::Log("Sending headers"@),
                    SyncActionView::LoadHeaders,
                ],
            ),
            _ => (ClientStateView::Done, comm_error()),
        },
        (ClientStateView::AwaitClientHeaders, SyncEventView::Headers(hs)) => client_send_header(hs, 0),
        (ClientStateView::AwaitHeaderAck(hs, i), SyncEventView::Received(m)) => match m {
            MessageView::Ack => client_send_header(hs, i + 1),
            _ => (ClientStateView::Done, comm_error()),
        },
        (ClientStateView::Serving, SyncEventView::Received(m)) => match m {
            MessageView::Exit => (
                ClientStateView::Done,
                seq![SyncActionView::Log("Sync complete"@), SyncActionView::Finish(Ok(()))],
            ),
            MessageView::Ack => (
                ClientStateView::Done,
                seq![SyncActionView::Send(MessageView::Exit), SyncActionView::Finish(Ok(()))],
            ),
            MessageView::Error(err) => (ClientStateView::Done, seq![SyncActionView::Finish(Err(err))]),
            MessageView::Invalid => (
                ClientStateView::Done,
                seq![SyncActionView::Finish(Err("Invalid Communication"@))],
            ),
            MessageView::Request(name) => (
                ClientStateView::AwaitLatest(name),
                seq![SyncActionView::LookupLatest(name)],
            ),
            MessageView::Name(name) => (
                ClientStateView::AwaitIncoming(name),
                seq![
                    SyncActionView::Log(quoted("Receiving file '"@, name)),
                    SyncActionView::Send(MessageView::Ack),
                    SyncActionView::Receive,
                ],
            ),
            _ => (ClientStateView::Done, comm_error()),
        },
        (ClientStateView::AwaitLatest(name), SyncEventView::Latest(latest)) => match latest {
            Some(entry) => (
                ClientStateView::AwaitEntryAck,
                seq![
                    SyncActionView::Log(quoted("Sending file '"@, name)),
                    SyncActionView::Send(MessageView::Entry(entry)),
                    SyncActionView::Receive,
                ],
            ),
            None => (ClientStateView::Serving, seq![SyncActionView::Receive]),
        },
        (ClientStateView::AwaitEntryAck, SyncEventView::Received(m)) => match m {
            MessageView::Ack => (
                ClientStateView::Serving,
                seq![SyncActionView::Send(MessageView::Ack), SyncActionView::Receive],
            ),
            _ => (ClientStateView::Done, comm_error()),
        },
        (ClientStateView::AwaitIncoming(name), SyncEventView::Received(m)) => match m {
            MessageView::Entry(entry) => (
                ClientStateView::Serving,
                seq![
                    SyncActionView::StoreEntry(name, entry),
                    SyncActionView::Send(MessageView::Ack),
                    SyncActionView::Receive,
                ],
            ),
            _ => (ClientStateView::Done, comm_error()),
        },
        _ => (ClientStateView::Done, seq![]),
    }
}

/// The event that the client waits for in a state.
pub open spec fn client_expects(s: ClientStateView, e: SyncEventView) -> bool {
    match s {
        ClientStateView::AwaitClientHeaders => e is Headers,
        ClientStateView::AwaitLatest(_) => e is Latest,
        ClientStateView::Done => false,
        _ => e is Received,
    }
}

/// The state's index points into its list.
pub open spec fn client_state_ok(s: ClientStateView) -> bool {
    match s {
        ClientStateView::AwaitHeaderAck(hs, i) => i < hs.len(),
        _ => true,
    }
}

/// Where the client is in the protocol.
pub enum ClientState {
    AwaitHashAck,
    AwaitClientHeaders,
    AwaitHeaderAck(Vec<Header>, usize),
    Serving,
    AwaitLatest(String),
    AwaitEntryAck,
    AwaitIncoming(String),
    Done,
}

impl View for ClientState {
    type V = ClientStateView;

    open spec fn view(&self) -> ClientStateView {
        match self {
            ClientState::AwaitHashAck => ClientStateView::AwaitHashAck,
            ClientState::AwaitClientHeaders => ClientStateView::AwaitClientHeaders,
            ClientState::AwaitHeaderAck(hs, i) => ClientStateView::AwaitHeaderAck(headers_view(hs@), *i as nat),
            ClientState::Serving => ClientStateView::Serving,
            ClientState::AwaitLatest(n) => ClientStateView::AwaitLatest(n@),
            ClientState::AwaitEntryAck => ClientStateView::AwaitEntryAck,
            ClientState::AwaitIncoming(n) => ClientStateView::AwaitIncoming(n@),
            ClientState::Done => ClientStateView::Done,
        }
    }
}

/// The client side of a sync.
pub struct ClientSync {
    user_hash: String,
    state: ClientState,
}

/// What a [ClientSync] holds.
pub struct ClientSyncView {
    pub user_hash: Seq<char>,
    pub state: ClientStateView,
}

impl View for ClientSync {
    type V = ClientSyncView;

    closed spec fn view(&self) -> ClientSyncView {
        ClientSyncView { user_hash: self.user_hash@, state: self.state@ }
    }
}

/// The client's state and actions for header `i`.
fn client_send_header_exec(hs: Vec<Header>, i: usize, v: &mut Vec<SyncAction>) -> (r: ClientState)
    ensures
        r@ == client_send_header(headers_view(hs@), i as nat).0,
        actions_view(final(v)@) == actions_view(old(v)@) + client_send_header(headers_view(hs@), i as nat).1,
        client_state_ok(r@),
{
    let ghost before = actions_view(v@);
    if i < hs.len() {
        let h = clone_header(&hs[i]);
        assert(headers_view(hs@)[i as int] == (h.0@, h.1@));
        push_action(v, SyncAction::Send(Message::Header(h)));
        push_action(v, SyncAction::Receive);
        assert(actions_view(v@) =~= before + client_send_header(headers_view(hs@), i as nat).1);
        ClientState::AwaitHeaderAck(hs, i)
    } else {
        push_action(v, SyncAction::Send(Message::Ack));
        push_action(v, SyncAction::Receive);
        assert(actions_view(v@) =~= before + client_send_header(headers_view(hs@), i as nat).1);
        ClientState::Serving
    }
}

impl ClientSync {
    /// The client's side, before anything is sent.
    pub fn new(user_hash: String) -> (r: ClientSync)
        ensures
            r@ == (ClientSyncView { user_hash: user_hash@, state: ClientStateView::AwaitHashAck }),
    {
        ClientSync { user_hash, state: ClientState::AwaitHashAck }
    }

    /// The first actions: send the user's hash and wait for the answer.
    pub fn start(&self) -> (r: Vec<SyncAction>)
        ensures
            actions_view(r@) == seq![
                SyncActionView::Send(MessageView::Hash(self@.user_hash)),
                SyncActionView::Receive,
            ],
    {
        let mut v: Vec<SyncAction> = Vec::new();
        push_action(&mut v, SyncAction::Send(Message::Hash(self.user_hash.clone())));
        push_action(&mut v, SyncAction::Receive);
        assert(actions_view(v@) =~= seq![
            SyncActionView::Send(MessageView::Hash(self@.user_hash)),
            SyncActionView::Receive,
        ]);
        v
    }

    /// The client is waiting for this kind of event.
    pub open spec fn expects(&self, e: SyncEventView) -> bool {
        client_expects(self@.state, e) && client_state_ok(self@.state)
    }

    /// Whether the sync is over.
    pub fn is_done(&self) -> (r: bool)
        ensures
            r == (self@.state is Done),
    {
        match self.state {
            ClientState::Done => true,
            _ => false,
        }
    }

    /// Takes an event and gives the actions that follow.
    pub fn step(&mut self, event: SyncEvent) -> (r: Vec<SyncAction>)
        requires
            old(self).expects(event@),
        ensures
            final(self)@.user_hash == old(self)@.user_hash,
            (final(self)@.state, actions_view(r@)) == client_step(old(self)@.state, event@),
            client_state_ok(final(self)@.state),
    {
        let mut v: Vec<SyncAction> = Vec::new();
        let mut state = ClientState::Done;
        std::mem::swap(&mut state, &mut self.state);
        let ghost s = state@;
        assert(s == old(self)@.state);
        let ghost e = event@;
        let next = match state {
            ClientState::AwaitHashAck => {
                match event {
                    SyncEvent::Received(Message::Ack) => {
                        push_action(&mut v, SyncAction::Log(String::from_str("Connection established")));
                        push_action(&mut v, SyncAction::Log(String::from_str("Sending headers")));
                        push_action(&mut v, SyncAction::LoadHeaders);
                        assert(actions_view(v@) =~= client_step(s, e).1);
                        ClientState::AwaitClientHeaders
                    },
                    _ => {
                        add_comm_error(&mut v);
                        assert(actions_view(v@) =~= client_step(s, e).1);
                        ClientState::Done
                    },
                }
            },
            ClientState::AwaitClientHeaders => {
                match event {
                    SyncEvent::Headers(hs) => {
                        let r = client_send_header_exec(hs, 0, &mut v);
                        assert(actions_view(v@) =~= client_step(s, e).1);
                        r
                    },
                    _ => ClientState::Done,
                }
            },
            ClientState::AwaitHeaderAck(hs, i) => {
                assert(i < hs.len());
                match event {
                    SyncEvent::Received(Message::Ack) => {
                        let r = client_send_header_exec(hs, i + 1, &mut v);
                        assert(actions_view(v@) =~= client_step(s, e).1);
                        r
                    },
                    _ => {
                        add_comm_error(&mut v);
                        assert(actions_view(v@) =~= client_step(s, e).1);
                        ClientState::Done
                    },
                }
            },
            ClientState::Serving => {
                match event {
                    SyncEvent::Received(m) => match m {
                        Message::Exit => {
                            push_action(&mut v, SyncAction::Log(String::from_str("Sync complete")));
                            push_action(&mut v, SyncAction::Finish(Ok(())));
                            assert(actions_view(v@) =~= client_step(s, e).1);
                            ClientState::Done
                        },
                        Message::Ack => {
                            push_action(&mut v, SyncAction::Send(Message::Exit));
                            push_action(&mut v, SyncAction::Finish(Ok(())));
                            assert(actions_view(v@) =~= client_step(s, e).1);
                            ClientState::Done
                        },
                        Message::Error(err) => {
                            push_action(&mut v, SyncAction::Finish(Err(err)));
                            assert(actions_view(v@) =~= client_step(s, e).1);
                            ClientState::Done
                        },
                        Message::Invalid => {
                            push_action(
                                &mut v,
                                SyncAction::Finish(Err(String::from_str("Invalid Communication"))),
                            );
                            assert(actions_view(v@) =~= client_step(s, e).1);
                            ClientState::Done
                        },
                        Message::Request(name) => {
                            push_action(&mut v, SyncAction::LookupLatest(name.clone()));
                            assert(actions_view(v@) =~= client_step(s, e).1);
                            ClientState::AwaitLatest(name)
                        },
                        Message::Name(name) => {
                            push_action(&mut v, SyncAction::Log(quote("Receiving file '", name.as_str())));
                            push_action(&mut v, SyncAction::Send(Message::Ack));
                            push_action(&mut v, SyncAction::Receive);
                            assert(actions_view(v@) =~= client_step(s, e).1);
                            ClientState::AwaitIncoming(name)
                        },
                        _ => {
                            add_comm_error(&mut v);
                            assert(actions_view(v@) =~= client_step(s, e).1);
                            ClientState::Done
                        },
                    },
                    _ => ClientState::Done,
                }
            },
            ClientState::AwaitLatest(name) => {
                match event {
                    SyncEvent::Latest(Some(entry)) => {
                        push_action(&mut v, SyncAction::Log(quote("Sending file '", name.as_str())));
                        push_action(&mut v, SyncAction::Send(Message::Entry(entry)));
                        push_action(&mut v, SyncAction::Receive);
                        assert(actions_view(v@) =~= client_step(s, e).1);
                        ClientState::AwaitEntryAck
                    },
                    _ => {
                        push_action(&mut v, SyncAction::Receive);
                        assert(actions_view(v@) =~= client_step(s, e).1);
                        ClientState::Serving
                    },
                }
            },
            ClientState::AwaitEntryAck => {
                match event {
                    SyncEvent::Received(Message::Ack) => {
                        push_action(&mut v, SyncAction::Send(Message::Ack));
                        push_action(&mut v, SyncAction::Receive);
                        assert(actions_view(v@) =~= client_step(s, e).1);
                        ClientState::Serving
                    },
                    _ => {
                        add_comm_error(&mut v);
                        assert(actions_view(v@) =~= client_step(s, e).1);
                        ClientState::Done
                    },
                }
            },
            ClientState::AwaitIncoming(name) => {
                match event {
                    SyncEvent::Received(Message::Entry(entry)) => {
                        push_action(&mut v, SyncAction::StoreEntry(name, entry));
                        push_action(&mut v, SyncAction::Send(Message::Ack));
                        push_action(&mut v, SyncAction::Receive);
                        assert(actions_view(v@) =~= client_step(s, e).1);
                        ClientState::Serving
                    },
                    _ => {
                        add_comm_error(&mut v);
                        assert(actions_view(v@) =~= client_step(s, e).1);
                        ClientState::Done
                    },
                }
            },
            ClientState::Done => ClientState::Done,
        };
        self.state = next;
        assert(self@.state == client_step(s, e).0);
        v
    }
}

} // verus!

verus! {

/// Every file the host requests and receives is stored under the name it
/// requested, before the host acknowledges it: on the entry answering
/// request `i`, the first action stores that entry under `reqs[i]`'s name
/// and the second sends `Ok`.
pub proof fn law_host_stores_received_file(
    user_hash: Seq<char>,
    reqs: Seq<HeaderView>,
    i: nat,
    sends: Seq<HeaderView>,
    entry: EntryView,
)
    requires
        i < reqs.len(),
    ensures
        ({
            let acts = host_step(
                user_hash,
                HostStateView::AwaitEntry(reqs, i, sends),
                SyncEventView::Received(MessageView::Entry(entry)),
            ).1;
            &&& acts.len() >= 2
            &&& acts[0] == SyncActionView::StoreEntry(reqs[i as int].0, entry)
            &&& acts[1] == SyncActionView::Send(MessageView::Ack)
        }),
{
}

/// Every file the host announces and then sends arrives stored on the
/// client under the announced name: on the entry that follows a `Name`,
/// the client stores it under that name, acknowledges it, and goes on
/// serving.
pub proof fn law_client_stores_announced_file(name: Seq<char>, entry: EntryView)
    ensures
        ({
            let r = client_step(
                ClientStateView::AwaitIncoming(name),
                SyncEventView::Received(MessageView::Entry(entry)),
            );
            &&& r.0 == ClientStateView::Serving
            &&& r.1.len() >= 2
            &&& r.1[0] == SyncActionView::StoreEntry(name, entry)
            &&& r.1[1] == SyncActionView::Send(MessageView::Ack)
        }),
{
}

/// A client announced a file by `Name` waits for exactly that file: the
/// name it will store under is the name announced.
pub proof fn law_client_name_then_entry(name: Seq<char>, entry: EntryView)
    ensures
        client_step(ClientStateView::Serving, SyncEventView::Received(MessageView::Name(name))).0
            == ClientStateView::AwaitIncoming(name),
        client_step(
            client_step(
                ClientStateView::Serving,
                SyncEventView::Received(MessageView::Name(name)),
            ).0,
            SyncEventView::Received(MessageView::Entry(entry)),
        ).1[0] == SyncActionView::StoreEntry(name, entry),
{
}

} // verus!
