//! The storage server's side of a connection, as a state machine: it takes
//! an event (a message from the client, or the outcome of a file operation)
//! and answers with its next state and the actions to perform, in order.
//!
//! Protocol, after `Login <name>` is answered with `Ok`:
//! Client: Set <name> -> Server: Ok; Client: Length <n> -> Server: Ok;
//!     Client: Data <text> -> Server: Ok (the text is stored)
//! Client: Get <name> -> Server: Length <n>; Client: Ok -> Server: Data <text>
//! Client: List -> Server: Length <n>; Client: Ok -> Server: Data <names>
//! Client: Remove <name> -> Server: Ok; Client: Remove <name> -> Server: Ok
//!     (the file is removed)
//! Client: Exit -> Server: Ok (the connection closes)

use vstd::prelude::*;
use vstd::string::StringExecFns;
use vstd::utf8::encode_utf8;
use crate::data_structures::{message_text, Message, MessageView};
use crate::text::{
    append_chars, chars_of, string_from_chars, trim_end, trim_end_chars, trim_end_matches,
    trim_end_matches_chars,
};

verus! {

/// What happened since the last actions.
pub enum ServerEvent {
    /// A message arrived from the client.
    Received(Message),
    /// The outcome of writing a file, with the error's text.
    Written(Result<(), String>),
    /// The text of the file that was read, if it could be read.
    FileRead(Option<String>),
    /// The names of the files in the directory that was listed.
    Listing(Vec<String>),
    /// Whether the file that was checked exists.
    Exists(bool),
    /// The outcome of removing a file, with the error's text.
    Removed(Result<(), String>),
}

/// What a [ServerEvent] holds.
pub enum ServerEventView {
    Received(MessageView),
    Written(Result<(), Seq<char>>),
    FileRead(Option<Seq<char>>),
    Listing(Seq<Seq<char>>),
    Exists(bool),
    Removed(Result<(), Seq<char>>),
}

/// The views of some strings.
pub open spec fn strings_view(v: Seq<String>) -> Seq<Seq<char>> {
    v.map_values(|s: String| s@)
}

impl View for ServerEvent {
    type V = ServerEventView;

    open spec fn view(&self) -> ServerEventView {
        match self {
            ServerEvent::Received(m) => ServerEventView::Received(m@),
            ServerEvent::Written(r) => ServerEventView::Written(
                match r {
                    Ok(()) => Ok(()),
                    Err(e) => Err(e@),
                },
            ),
            ServerEvent::FileRead(t) => ServerEventView::FileRead(
                match t {
                    Some(x) => Some(x@),
                    None => None,
                },
            ),
            ServerEvent::Listing(ns) => ServerEventView::Listing(strings_view(ns@)),
            ServerEvent::Exists(b) => ServerEventView::Exists(*b),
            ServerEvent::Removed(r) => ServerEventView::Removed(
                match r {
                    Ok(()) => Ok(()),
                    Err(e) => Err(e@),
                },
            ),
        }
    }
}

/// Something to do for the connection.
pub enum ServerAction {
    /// Send a message to the client.
    Send(Message),
    /// Read the next message, of at most this many bytes (answer with
    /// `ServerEvent::Received`).
    Receive(usize),
    /// Make this directory, telling the operator of any error.
    CreateDir(String),
    /// Write the text to the file at this path (answer with
    /// `ServerEvent::Written`).
    WriteFile(String, String),
    /// Read the file at this path (answer with `ServerEvent::FileRead`).
    ReadFile(String),
    /// List the files of this directory (answer with `ServerEvent::Listing`).
    ListDir(String),
    /// Check whether the file at this path exists (answer with
    /// `ServerEvent::Exists`).
    CheckFile(String),
    /// Remove the file at this path (answer with `ServerEvent::Removed`).
    RemoveFile(String),
    /// Tell the operator.
    Log(String),
    /// Tell the operator of an error.
    LogError(String),
    /// Close the connection at once (the login failed).
    Close,
    /// Close the connection, telling the operator which one closed.
    Finish,
}

/// What a [ServerAction] holds.
pub enum ServerActionView {
    Send(MessageView),
    Receive(nat),
    CreateDir(Seq<char>),
    WriteFile(Seq<char>, Seq<char>),
    ReadFile(Seq<char>),
    ListDir(Seq<char>),
    CheckFile(Seq<char>),
    RemoveFile(Seq<char>),
    Log(Seq<char>),
    LogError(Seq<char>),
    Close,
    Finish,
}

impl View for ServerAction {
    type V = ServerActionView;

    open spec fn view(&self) -> ServerActionView {
        match self {
            ServerAction::Send(m) => ServerActionView::Send(m@),
            ServerAction::Receive(n) => ServerActionView::Receive(*n as nat),
            ServerAction::CreateDir(p) => ServerActionView::CreateDir(p@),
            ServerAction::WriteFile(p, t) => ServerActionView::WriteFile(p@, t@),
            ServerAction::ReadFile(p) => ServerActionView::ReadFile(p@),
            ServerAction::ListDir(p) => ServerActionView::ListDir(p@),
            ServerAction::CheckFile(p) => ServerActionView::CheckFile(p@),
            ServerAction::RemoveFile(p) => ServerActionView::RemoveFile(p@),
            ServerAction::Log(s) => ServerActionView::Log(s@),
            ServerAction::LogError(s) => ServerActionView::LogError(s@),
            ServerAction::Close => ServerActionView::Close,
            ServerAction::Finish => ServerActionView::Finish,
        }
    }
}

/// The actions' views.
pub open spec fn server_actions_view(v: Seq<ServerAction>) -> Seq<ServerActionView> {
    v.map_values(|a: ServerAction| a@)
}

/// A user's directory.
pub open spec fn user_dir(user: Seq<char>) -> Seq<char> {
    "./files/"@ + user
}

/// The directory that is listed for a user.
pub open spec fn listing_dir(user: Seq<char>) -> Seq<char> {
    "./files/"@ + user + "/"@
}

/// The file that holds a user's data of a given name.
pub open spec fn data_path(user: Seq<char>, name: Seq<char>) -> Seq<char> {
    "./files/"@ + user + "/"@ + name + ".txt"@
}

/// The list of a user's data: each file name without its `.txt` endings,
/// followed by a line break.
pub open spec fn listing_text(names: Seq<Seq<char>>) -> Seq<char>
    decreases names.len(),
{
    if names.len() == 0 {
        seq![]
    } else {
        listing_text(names.drop_last()) + trim_end_matches(names.last(), ".txt"@) + "\n"@
    }
}

/// The error sent for a message out of turn in a transfer.
pub open spec fn invalid_message() -> MessageView {
    MessageView::Error("Invalid message"@)
}

/// The text sent and logged for a command the server does not know.
pub open spec fn invalid_command(m: MessageView) -> Seq<char> {
    "Invalid Command: "@ + message_text(m)
}

/// Where the server is in a connection.
pub enum ServerStateView {
    /// Waiting for the first message, which must be a login.
    AwaitLogin,
    /// Logged in as this user, waiting for a command.
    Ready(Seq<char>),
    /// Storing data of this name: waiting for its length.
    AwaitLength(Seq<char>, Seq<char>),
    /// Storing data of this name: waiting for the data.
    AwaitData(Seq<char>, Seq<char>),
    /// Waiting for the outcome of writing the data.
    AwaitWrite(Seq<char>),
    /// Waiting for the text of the file that was asked for.
    AwaitRead(Seq<char>),
    /// Waiting for the client to accept the length of this text.
    AwaitDataAck(Seq<char>, Seq<char>),
    /// Waiting for the names of the user's files.
    AwaitListing(Seq<char>),
    /// Removing data of this name: waiting to know whether it exists.
    AwaitExists(Seq<char>, Seq<char>),
    /// Removing data of this name: waiting for the client to confirm.
    AwaitConfirm(Seq<char>, Seq<char>),
    /// Waiting for the outcome of removing the data.
    AwaitRemoved(Seq<char>, Seq<char>),
    /// The connection is over.
    Closed,
}

/// Logging in as the name sent, without trailing whitespace.
pub open spec fn login_step(name: Seq<char>) -> (ServerStateView, Seq<ServerActionView>) {
    let user = trim_end(name);
    (
        ServerStateView::Ready(user),
        seq![
            ServerActionView::Send(MessageView::Ack),
            ServerActionView::CreateDir(user_dir(user)),
            ServerActionView::Log("Logged in as "@ + user),
            ServerActionView::Receive(16),
        ],
    )
}

/// Sending one message and waiting for the next command.
pub open spec fn reply(user: Seq<char>, m: MessageView) -> (ServerStateView, Seq<ServerActionView>) {
    (
        ServerStateView::Ready(user),
        seq![ServerActionView::Send(m), ServerActionView::Receive(16)],
    )
}

/// Offering a text: its length in bytes first.
pub open spec fn offer(user: Seq<char>, text: Seq<char>) -> (ServerStateView, Seq<ServerActionView>) {
    (
        ServerStateView::AwaitDataAck(user, text),
        seq![
            ServerActionView::Send(MessageView::Length(encode_utf8(text).len())),
            ServerActionView::Receive(16),
        ],
    )
}

/// What the server does on an event: its next state and its actions.
pub open spec fn server_step(s: ServerStateView, e: ServerEventView) -> (
    ServerStateView,
    Seq<ServerActionView>,
) {
    match (s, e) {
        (ServerStateView::AwaitLogin, ServerEventView::Received(m)) => match m {
            MessageView::Login(name) => login_step(name),
            _ => (
                ServerStateView::Closed,
                seq![
                    ServerActionView::Send(MessageView::Error("You need to login"@)),
                    ServerActionView::Close,
                ],
            ),
        },
        (ServerStateView::Ready(u), ServerEventView::Received(m)) => match m {
            MessageView::Login(name) => login_step(name),
            MessageView::Store(d) => (
                ServerStateView::AwaitLength(u, d),
                seq![ServerActionView::Send(MessageView::Ack), ServerActionView::Receive(16)],
            ),
            MessageView::Get(d) => (
                ServerStateView::AwaitRead(u),
                seq![ServerActionView::ReadFile(data_path(u, d))],
            ),
            MessageView::List => (
                ServerStateView::AwaitListing(u),
                seq![ServerActionView::ListDir(listing_dir(u))],
            ),
            MessageView::Remove(d) => (
                ServerStateView::AwaitExists(u, d),
                seq![ServerActionView::CheckFile(data_path(u, d))],
            ),
            MessageView::Exit => (
                ServerStateView::Closed,
                seq![
                    ServerActionView::Send(MessageView::Ack),
                    ServerActionView::Log("Exited Ok"@),
                    ServerActionView::Finish,
                ],
            ),
            _ => (
                ServerStateView::Closed,
                seq![
                    ServerActionView::Send(MessageView::Error(invalid_command(m))),
                    ServerActionView::LogError(invalid_command(m)),
                    ServerActionView::Finish,
                ],
            ),
        },
        (ServerStateView::AwaitLength(u, d), ServerEventView::Received(m)) => match m {
            MessageView::Length(n) => (
                ServerStateView::AwaitData(u, d),
                seq![ServerActionView::Send(MessageView::Ack), ServerActionView::Receive(n)],
            ),
            _ => reply(u, invalid_message()),
        },
        (ServerStateView::AwaitData(u, d), ServerEventView::Received(m)) => match m {
            MessageView::Data(x) => (
                ServerStateView::AwaitWrite(u),
                seq![ServerActionView::WriteFile(data_path(u, d), x)],
            ),
            _ => reply(u, invalid_message()),
        },
        (ServerStateView::AwaitWrite(u), ServerEventView::Written(r)) => match r {
            Ok(()) => reply(u, MessageView::Ack),
            Err(err) => (
                ServerStateView::Ready(u),
                seq![
                    ServerActionView::LogError(err),
                    ServerActionView::Send(MessageView::Error(err)),
                    ServerActionView::Receive(16),
                ],
            ),
        },
        (ServerStateView::AwaitRead(u), ServerEventView::FileRead(t)) => match t {
            Some(x) => offer(u, x),
            None => reply(u, MessageView::Error("Couldn't read file"@)),
        },
        (ServerStateView::AwaitDataAck(u, x), ServerEventView::Received(m)) => match m {
            MessageView::Ack => reply(u, MessageView::Data(x)),
            _ => reply(u, invalid_message()),
        },
        (ServerStateView::AwaitListing(u), ServerEventView::Listing(names)) => offer(
            u,
            listing_text(names),
        ),
        (ServerStateView::AwaitExists(u, d), ServerEventView::Exists(b)) => if b {
            (
                ServerStateView::AwaitConfirm(u, d),
                seq![ServerActionView::Send(MessageView::Ack), ServerActionView::Receive(16)],
            )
        } else {
            reply(u, MessageView::Error("File '"@ + d + "' does not exist"@))
        },
        (ServerStateView::AwaitConfirm(u, d), ServerEventView::Received(m)) => match m {
            MessageView::Remove(_) => (
                ServerStateView::AwaitRemoved(u, d),
                seq![ServerActionView::RemoveFile(data_path(u, d))],
            ),
            _ => (ServerStateView::Ready(u), seq![ServerActionView::Receive(16)]),
        },
        (ServerStateView::AwaitRemoved(u, d), ServerEventView::Removed(r)) => match r {
            Ok(()) => reply(u, MessageView::Ack),
            Err(err) => (
                ServerStateView::Ready(u),
                seq![
                    ServerActionView::Log(err),
                    ServerActionView::Send(MessageView::Error("Error removing '"@ + d + "'"@)),
                    ServerActionView::Receive(16),
                ],
            ),
        },
        _ => (ServerStateView::Closed, seq![]),
    }
}

/// The event that the server waits for in a state.
pub open spec fn server_expects(s: ServerStateView, e: ServerEventView) -> bool {
    match s {
        ServerStateView::AwaitWrite(_) => e is Written,
        ServerStateView::AwaitRead(_) => e is FileRead,
        ServerStateView::AwaitListing(_) => e is Listing,
        ServerStateView::AwaitExists(_, _) => e is Exists,
        ServerStateView::AwaitRemoved(_, _) => e is Removed,
        ServerStateView::Closed => false,
        _ => e is Received,
    }
}

/// Where the server is in a connection.
pub enum ServerState {
    AwaitLogin,
    Ready(String),
    AwaitLength(String, String),
    AwaitData(String, String),
    AwaitWrite(String),
    AwaitRead(String),
    AwaitDataAck(String, String),
    AwaitListing(String),
    AwaitExists(String, String),
    AwaitConfirm(String, String),
    AwaitRemoved(String, String),
    Closed,
}

impl View for ServerState {
    type V = ServerStateView;

    open spec fn view(&self) -> ServerStateView {
        match self {
            ServerState::AwaitLogin => ServerStateView::AwaitLogin,
            ServerState::Ready(u) => ServerStateView::Ready(u@),
            ServerState::AwaitLength(u, d) => ServerStateView::AwaitLength(u@, d@),
            ServerState::AwaitData(u, d) => ServerStateView::AwaitData(u@, d@),
            ServerState::AwaitWrite(u) => ServerStateView::AwaitWrite(u@),
            ServerState::AwaitRead(u) => ServerStateView::AwaitRead(u@),
            ServerState::AwaitDataAck(u, x) => ServerStateView::AwaitDataAck(u@, x@),
            ServerState::AwaitListing(u) => ServerStateView::AwaitListing(u@),
            ServerState::AwaitExists(u, d) => ServerStateView::AwaitExists(u@, d@),
            ServerState::AwaitConfirm(u, d) => ServerStateView::AwaitConfirm(u@, d@),
            ServerState::AwaitRemoved(u, d) => ServerStateView::AwaitRemoved(u@, d@),
            ServerState::Closed => ServerStateView::Closed,
        }
    }
}

/// The server's side of one connection.
pub struct Server {
    state: ServerState,
}

impl View for Server {
    type V = ServerStateView;

    closed spec fn view(&self) -> ServerStateView {
        self.state@
    }
}

/// Appends one action.
fn push_action(v: &mut Vec<ServerAction>, a: ServerAction)
    ensures
        server_actions_view(final(v)@) == server_actions_view(old(v)@).push(a@),
{
    let ghost before = v@;
    v.push(a);
    assert(server_actions_view(v@) =~= server_actions_view(before).push(a@));
}

/// The strings joined end to end.
fn join3(a: &str, b: &str, c: &str) -> (r: String)
    ensures
        r@ == a@ + b@ + c@,
{
    let mut out = chars_of(a);
    let bc = chars_of(b);
    append_chars(&mut out, bc.as_slice());
    let cc = chars_of(c);
    append_chars(&mut out, cc.as_slice());
    string_from_chars(out.as_slice())
}

/// The file that holds a user's data of a given name.
pub fn data_file(user: &str, name: &str) -> (r: String)
    ensures
        r@ == data_path(user@, name@),
{
    let head = join3("./files/", user, "/");
    join3(head.as_str(), name, ".txt")
}

/// The list of a user's data from the names of the files.
pub fn listing(names: &Vec<String>) -> (r: String)
    ensures
        r@ == listing_text(strings_view(names@)),
{
    let ghost ns = strings_view(names@);
    let mut out: Vec<char> = Vec::new();
    let suffix = chars_of(".txt");
    let nl = chars_of("\n");
    let mut i: usize = 0;
    while i < names.len()
        invariant
            i <= names@.len(),
            ns == strings_view(names@),
            suffix@ == ".txt"@,
            nl@ == "\n"@,
            out@ == listing_text(ns.take(i as int)),
        decreases names@.len() - i,
    {
        let cs = chars_of(names[i].as_str());
        let stem = trim_end_matches_chars(cs.as_slice(), suffix.as_slice());
        append_chars(&mut out, stem.as_slice());
        append_chars(&mut out, nl.as_slice());
        assert(ns.take(i + 1).drop_last() =~= ns.take(i as int));
        assert(ns.take(i + 1).last() == names@[i as int]@);
        i += 1;
    }
    assert(ns.take(i as int) =~= ns);
    string_from_chars(out.as_slice())
}

/// The actions of a login, and the user it logs in.
fn login_exec(name: &str, v: &mut Vec<ServerAction>) -> (r: ServerState)
    ensures
        r@ == login_step(name@).0,
        server_actions_view(final(v)@) == server_actions_view(old(v)@) + login_step(name@).1,
{
    let ghost before = server_actions_view(v@);
    let cs = chars_of(name);
    let uc = trim_end_chars(cs.as_slice());
    let user = string_from_chars(uc.as_slice());
    push_action(v, ServerAction::Send(Message::Ack));
    push_action(v, ServerAction::CreateDir(join3("./files/", user.as_str(), "")));
    push_action(v, ServerAction::Log(join3("Logged in as ", user.as_str(), "")));
    push_action(v, ServerAction::Receive(16));
    proof {
        reveal_strlit("");
    }
    assert(server_actions_view(v@) =~= before + login_step(name@).1);
    ServerState::Ready(user)
}

/// The actions of a reply, and the state that waits for the next command.
fn reply_exec(user: String, m: Message, v: &mut Vec<ServerAction>) -> (r: ServerState)
    ensures
        r@ == reply(user@, m@).0,
        server_actions_view(final(v)@) == server_actions_view(old(v)@) + reply(user@, m@).1,
{
    let ghost before = server_actions_view(v@);
    let ghost mv = m@;
    push_action(v, ServerAction::Send(m));
    push_action(v, ServerAction::Receive(16));
    assert(server_actions_view(v@) =~= before + reply(user@, mv).1);
    ServerState::Ready(user)
}

/// The actions that offer a text, and the state that waits for its
/// acceptance.
fn offer_exec(user: String, text: String, v: &mut Vec<ServerAction>) -> (r: ServerState)
    ensures
        r@ == offer(user@, text@).0,
        server_actions_view(final(v)@) == server_actions_view(old(v)@) + offer(user@, text@).1,
{
    let ghost before = server_actions_view(v@);
    let n = text.as_str().as_bytes().len();
    push_action(v, ServerAction::Send(Message::Length(n)));
    push_action(v, ServerAction::Receive(16));
    assert(server_actions_view(v@) =~= before + offer(user@, text@).1);
    ServerState::AwaitDataAck(user, text)
}

impl Server {
    /// The server's side of a new connection.
    pub fn new() -> (r: Server)
        ensures
            r@ == ServerStateView::AwaitLogin,
    {
        Server { state: ServerState::AwaitLogin }
    }

    /// The first action: read the login, of at most 128 bytes.
    pub fn start(&self) -> (r: Vec<ServerAction>)
        ensures
            server_actions_view(r@) == seq![ServerActionView::Receive(128)],
    {
        let mut v: Vec<ServerAction> = Vec::new();
        push_action(&mut v, ServerAction::Receive(128));
        assert(server_actions_view(v@) =~= seq![ServerActionView::Receive(128)]);
        v
    }

    /// The server is waiting for this kind of event.
    pub open spec fn expects(&self, e: ServerEventView) -> bool {
        server_expects(self@, e)
    }

    /// Whether the connection is over.
    pub fn is_closed(&self) -> (r: bool)
        ensures
            r == (self@ is Closed),
    {
        match self.state {
            ServerState::Closed => true,
            _ => false,
        }
    }

    /// Takes an event and gives the actions that follow.
    pub fn step(&mut self, event: ServerEvent) -> (r: Vec<ServerAction>)
        requires
            old(self).expects(event@),
        ensures
            (final(self)@, server_actions_view(r@)) == server_step(old(self)@, event@),
    {
        proof {
            reveal_strlit("");
        }
        let mut v: Vec<ServerAction> = Vec::new();
        let mut state = ServerState::Closed;
        std::mem::swap(&mut state, &mut self.state);
        let ghost s = state@;
        let ghost e = event@;
        let next = match state {
            ServerState::AwaitLogin => match event {
                ServerEvent::Received(Message::Login(name)) => login_exec(name.as_str(), &mut v),
                _ => {
                    push_action(
                        &mut v,
                        ServerAction::Send(Message::Error(String::from_str("You need to login"))),
                    );
                    push_action(&mut v, ServerAction::Close);
                    assert(server_actions_view(v@) =~= server_step(s, e).1);
                    ServerState::Closed
                },
            },
            ServerState::Ready(u) => match event {
                ServerEvent::Received(m) => match m {
                    Message::Login(name) => login_exec(name.as_str(), &mut v),
                    Message::Store(d) => {
                        push_action(&mut v, ServerAction::Send(Message::Ack));
                        push_action(&mut v, ServerAction::Receive(16));
                        assert(server_actions_view(v@) =~= server_step(s, e).1);
                        ServerState::AwaitLength(u, d)
                    },
                    Message::Get(d) => {
                        push_action(&mut v, ServerAction::ReadFile(data_file(u.as_str(), d.as_str())));
                        assert(server_actions_view(v@) =~= server_step(s, e).1);
                        ServerState::AwaitRead(u)
                    },
                    Message::List => {
                        push_action(&mut v, ServerAction::ListDir(join3("./files/", u.as_str(), "/")));
                        assert(server_actions_view(v@) =~= server_step(s, e).1);
                        ServerState::AwaitListing(u)
                    },
                    Message::Remove(d) => {
                        push_action(&mut v, ServerAction::CheckFile(data_file(u.as_str(), d.as_str())));
                        assert(server_actions_view(v@) =~= server_step(s, e).1);
                        ServerState::AwaitExists(u, d)
                    },
                    Message::Exit => {
                        push_action(&mut v, ServerAction::Send(Message::Ack));
                        push_action(&mut v, ServerAction::Log(String::from_str("Exited Ok")));
                        push_action(&mut v, ServerAction::Finish);
                        assert(server_actions_view(v@) =~= server_step(s, e).1);
                        ServerState::Closed
                    },
                    other => {
                        let text = other.to_string();
                        let msg = join3("Invalid Command: ", text.as_str(), "");
                        let log = join3("Invalid Command: ", text.as_str(), "");
                        push_action(&mut v, ServerAction::Send(Message::Error(msg)));
                        push_action(&mut v, ServerAction::LogError(log));
                        push_action(&mut v, ServerAction::Finish);
                        assert(server_actions_view(v@) =~= server_step(s, e).1);
                        ServerState::Closed
                    },
                },
                _ => ServerState::Closed,
            },
            ServerState::AwaitLength(u, d) => match event {
                ServerEvent::Received(Message::Length(n)) => {
                    push_action(&mut v, ServerAction::Send(Message::Ack));
                    push_action(&mut v, ServerAction::Receive(n));
                    assert(server_actions_view(v@) =~= server_step(s, e).1);
                    ServerState::AwaitData(u, d)
                },
                _ => reply_exec(u, Message::Error(String::from_str("Invalid message")), &mut v),
            },
            ServerState::AwaitData(u, d) => match event {
                ServerEvent::Received(Message::Data(x)) => {
                    push_action(&mut v, ServerAction::WriteFile(data_file(u.as_str(), d.as_str()), x));
                    assert(server_actions_view(v@) =~= server_step(s, e).1);
                    ServerState::AwaitWrite(u)
                },
                _ => reply_exec(u, Message::Error(String::from_str("Invalid message")), &mut v),
            },
            ServerState::AwaitWrite(u) => match event {
                ServerEvent::Written(Ok(())) => reply_exec(u, Message::Ack, &mut v),
                ServerEvent::Written(Err(err)) => {
                    let copy = err.clone();
                    push_action(&mut v, ServerAction::LogError(copy));
                    push_action(&mut v, ServerAction::Send(Message::Error(err)));
                    push_action(&mut v, ServerAction::Receive(16));
                    assert(server_actions_view(v@) =~= server_step(s, e).1);
                    ServerState::Ready(u)
                },
                _ => ServerState::Closed,
            },
            ServerState::AwaitRead(u) => match event {
                ServerEvent::FileRead(Some(x)) => offer_exec(u, x, &mut v),
                ServerEvent::FileRead(None) => reply_exec(
                    u,
                    Message::Error(String::from_str("Couldn't read file")),
                    &mut v,
                ),
                _ => ServerState::Closed,
            },
            ServerState::AwaitDataAck(u, x) => match event {
                ServerEvent::Received(Message::Ack) => reply_exec(u, Message::Data(x), &mut v),
                _ => reply_exec(u, Message::Error(String::from_str("Invalid message")), &mut v),
            },
            ServerState::AwaitListing(u) => match event {
                ServerEvent::Listing(names) => {
                    let text = listing(&names);
                    offer_exec(u, text, &mut v)
                },
                _ => ServerState::Closed,
            },
            ServerState::AwaitExists(u, d) => match event {
                ServerEvent::Exists(true) => {
                    push_action(&mut v, ServerAction::Send(Message::Ack));
                    push_action(&mut v, ServerAction::Receive(16));
                    assert(server_actions_view(v@) =~= server_step(s, e).1);
                    ServerState::AwaitConfirm(u, d)
                },
                ServerEvent::Exists(false) => {
                    let msg = join3("File '", d.as_str(), "' does not exist");
                    reply_exec(u, Message::Error(msg), &mut v)
                },
                _ => ServerState::Closed,
            },
            ServerState::AwaitConfirm(u, d) => match event {
                ServerEvent::Received(Message::Remove(_)) => {
                    push_action(&mut v, ServerAction::RemoveFile(data_file(u.as_str(), d.as_str())));
                    assert(server_actions_view(v@) =~= server_step(s, e).1);
                    ServerState::AwaitRemoved(u, d)
                },
                _ => {
                    push_action(&mut v, ServerAction::Receive(16));
                    assert(server_actions_view(v@) =~= server_step(s, e).1);
                    ServerState::Ready(u)
                },
            },
            ServerState::AwaitRemoved(u, d) => match event {
                ServerEvent::Removed(Ok(())) => reply_exec(u, Message::Ack, &mut v),
                ServerEvent::Removed(Err(err)) => {
                    push_action(&mut v, ServerAction::Log(err));
                    let msg = join3("Error removing '", d.as_str(), "'");
                    push_action(&mut v, ServerAction::Send(Message::Error(msg)));
                    push_action(&mut v, ServerAction::Receive(16));
                    assert(server_actions_view(v@) =~= server_step(s, e).1);
                    ServerState::Ready(u)
                },
                _ => ServerState::Closed,
            },
            ServerState::Closed => ServerState::Closed,
        };
        self.state = next;
        v
    }
}

} // verus!

verus! {

/// The user a state serves, once someone has logged in.
pub open spec fn state_user(s: ServerStateView) -> Option<Seq<char>> {
    match s {
        ServerStateView::AwaitLogin => None,
        ServerStateView::Closed => None,
        ServerStateView::Ready(u) => Some(u),
        ServerStateView::AwaitLength(u, _) => Some(u),
        ServerStateView::AwaitData(u, _) => Some(u),
        ServerStateView::AwaitWrite(u) => Some(u),
        ServerStateView::AwaitRead(u) => Some(u),
        ServerStateView::AwaitDataAck(u, _) => Some(u),
        ServerStateView::AwaitListing(u) => Some(u),
        ServerStateView::AwaitExists(u, _) => Some(u),
        ServerStateView::AwaitConfirm(u, _) => Some(u),
        ServerStateView::AwaitRemoved(u, _) => Some(u),
    }
}

/// An action touches the file system only at a path built for `user`: a
/// data file `data_path(user, name)` or the user's listing directory.
pub open spec fn action_for_user(a: ServerActionView, user: Seq<char>) -> bool {
    match a {
        ServerActionView::WriteFile(p, _) => exists|d: Seq<char>| p == #[trigger] data_path(user, d),
        ServerActionView::ReadFile(p) => exists|d: Seq<char>| p == #[trigger] data_path(user, d),
        ServerActionView::CheckFile(p) => exists|d: Seq<char>| p == #[trigger] data_path(user, d),
        ServerActionView::RemoveFile(p) => exists|d: Seq<char>| p == #[trigger] data_path(user, d),
        ServerActionView::ListDir(p) => p == listing_dir(user),
        _ => true,
    }
}

/// Once a user is logged in, every step reads, writes, checks, removes and
/// lists only paths built for that user, and the next state serves the same
/// user unless the step was a new login.
pub proof fn law_server_stays_with_user(s: ServerStateView, e: ServerEventView)
    requires
        state_user(s) is Some,
        server_expects(s, e),
    ensures
        forall|i: int|
            0 <= i < server_step(s, e).1.len() ==> action_for_user(
                #[trigger] server_step(s, e).1[i],
                state_user(s)->0,
            ),
        !(s is Ready && e matches ServerEventView::Received(MessageView::Login(_))) ==> (
        state_user(server_step(s, e).0) is Some ==> state_user(server_step(s, e).0) == state_user(s)),
{
    let u = state_user(s)->0;
    let r = server_step(s, e);
    assert forall|i: int| 0 <= i < r.1.len() implies action_for_user(#[trigger] r.1[i], u) by {
        match (s, e) {
            (ServerStateView::Ready(_), ServerEventView::Received(MessageView::Get(d))) => {
                assert(r.1[i] == ServerActionView::ReadFile(data_path(u, d)));
            },
            (ServerStateView::Ready(_), ServerEventView::Received(MessageView::Remove(d))) => {
                assert(r.1[i] == ServerActionView::CheckFile(data_path(u, d)));
            },
            (ServerStateView::AwaitData(_, d), ServerEventView::Received(MessageView::Data(x))) => {
                assert(r.1[i] == ServerActionView::WriteFile(data_path(u, d), x));
            },
            (ServerStateView::AwaitConfirm(_, d), ServerEventView::Received(MessageView::Remove(_))) => {
                assert(r.1[i] == ServerActionView::RemoveFile(data_path(u, d)));
            },
            _ => {},
        }
    }
}

} // verus!

verus! {

/// A login switches the server to the user it names (without trailing
/// whitespace), whatever user was logged in before: a login while logged in
/// acts exactly as a first login, answers `Ok`, makes that user's directory,
/// and every path afterwards is built for the new user.
pub proof fn law_login_switches_user(u: Seq<char>, name: Seq<char>, d: Seq<char>)
    ensures
        server_step(ServerStateView::Ready(u), ServerEventView::Received(MessageView::Login(name)))
            == server_step(
            ServerStateView::AwaitLogin,
            ServerEventView::Received(MessageView::Login(name)),
        ),
        ({
            let r = server_step(
                ServerStateView::Ready(u),
                ServerEventView::Received(MessageView::Login(name)),
            );
            &&& r.0 == ServerStateView::Ready(trim_end(name))
            &&& r.1.len() >= 2
            &&& r.1[0] == ServerActionView::Send(MessageView::Ack)
            &&& r.1[1] == ServerActionView::CreateDir("./files/"@ + trim_end(name))
            &&& server_step(r.0, ServerEventView::Received(MessageView::Get(d))).1
                == seq![
                ServerActionView::ReadFile(
                    "./files/"@ + trim_end(name) + "/"@ + d + ".txt"@,
                ),
            ]
        }),
{
}

} // verus!
