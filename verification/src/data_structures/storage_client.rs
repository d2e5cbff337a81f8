//! The storage client's side of a connection, as a state machine: it takes
//! an event (a command from the user, a message from the server, or a
//! password) and answers with its next state and the actions to perform, in
//! order.
//!
//! After the login, each command runs one exchange of the storage protocol:
//! storing data (`Set`, `Length`, `Data`), fetching data (`Get`, `Ok`), listing
//! (`List`, `Ok`) or leaving (`Exit`).

use vstd::prelude::*;
use vstd::string::StringExecFns;
use vstd::utf8::encode_utf8;
use crate::block::block_text_bytes;
use crate::data_structures::client_data::{client_hex_text, cypher_blocks, SMsg};
use crate::data_structures::{Message, MessageView};
use crate::smsg::{chars_hex_lines, chunk_blocks, concat_chars, hex_lines, parse_blocks};
use crate::text::{chars_of, utf8_lossy};

verus! {

/// The login message for a user: the name encrypted with the password, as
/// hexadecimal lines.
pub open spec fn login_text(username: Seq<char>, password: Seq<char>) -> Seq<char> {
    client_hex_text(cypher_blocks(chunk_blocks(encode_utf8(username)), password))
}

/// The login message sent for a user and password.
pub fn login_message(username: &str, password: &str) -> (r: Message)
    ensures
        r@ == MessageView::Login(login_text(username@, password@)),
{
    let name = SMsg::plain_from_str(username);
    let name = name.encrypt(password);
    Message::Login(name.to_string_hex())
}

/// Whether every line of `string` is hexadecimal, as `SMsg::cypher_from_hex`
/// needs.
pub fn is_hex_lines(string: &str) -> (r: bool)
    ensures
        r == hex_lines(string@),
{
    let cs = chars_of(string);
    chars_hex_lines(cs.as_slice())
}

/// A user's command.
pub enum StorageCommand {
    /// Store the data under the name.
    Store(String, String),
    /// Fetch the data of the name.
    Fetch(String),
    /// List the names of the stored data.
    List,
    /// Leave.
    Exit,
}

/// What a [StorageCommand] holds.
pub enum StorageCommandView {
    Store(Seq<char>, Seq<char>),
    Fetch(Seq<char>),
    List,
    Exit,
}

impl View for StorageCommand {
    type V = StorageCommandView;

    open spec fn view(&self) -> StorageCommandView {
        match self {
            StorageCommand::Store(n, d) => StorageCommandView::Store(n@, d@),
            StorageCommand::Fetch(n) => StorageCommandView::Fetch(n@),
            StorageCommand::List => StorageCommandView::List,
            StorageCommand::Exit => StorageCommandView::Exit,
        }
    }
}

/// What happened since the last actions.
pub enum StorageEvent {
    /// The user gave a command.
    Command(StorageCommand),
    /// A message arrived from the server.
    Received(Message),
    /// The user gave the password of fetched data.
    Password(String),
}

/// What a [StorageEvent] holds.
pub enum StorageEventView {
    Command(StorageCommandView),
    Received(MessageView),
    Password(Seq<char>),
}

impl View for StorageEvent {
    type V = StorageEventView;

    open spec fn view(&self) -> StorageEventView {
        match self {
            StorageEvent::Command(c) => StorageEventView::Command(c@),
            StorageEvent::Received(m) => StorageEventView::Received(m@),
            StorageEvent::Password(p) => StorageEventView::Password(p@),
        }
    }
}

/// Something to do for the connection.
pub enum StorageAction {
    /// Send a message to the server.
    Send(Message),
    /// Read the next message, of at most this many bytes (answer with
    /// `StorageEvent::Received`).
    Receive(usize),
    /// Ask the user for the next command (answer with
    /// `StorageEvent::Command`).
    AskCommand,
    /// Ask the user for the password of fetched data (answer with
    /// `StorageEvent::Password`).
    AskPassword,
    /// Tell the user.
    Show(String),
    /// Tell the user of an error.
    ShowError(String),
    /// The outcome of fetching data: its text, or why there is none.
    Opened(String),
    /// Close the connection.
    Close,
}

/// What a [StorageAction] holds.
pub enum StorageActionView {
    Send(MessageView),
    Receive(nat),
    AskCommand,
    AskPassword,
    Show(Seq<char>),
    ShowError(Seq<char>),
    Opened(Seq<char>),
    Close,
}

impl View for StorageAction {
    type V = StorageActionView;

    open spec fn view(&self) -> StorageActionView {
        match self {
            StorageAction::Send(m) => StorageActionView::Send(m@),
            StorageAction::Receive(n) => StorageActionView::Receive(*n as nat),
            StorageAction::AskCommand => StorageActionView::AskCommand,
            StorageAction::AskPassword => StorageActionView::AskPassword,
            StorageAction::Show(s) => StorageActionView::Show(s@),
            StorageAction::ShowError(s) => StorageActionView::ShowError(s@),
            StorageAction::Opened(s) => StorageActionView::Opened(s@),
            StorageAction::Close => StorageActionView::Close,
        }
    }
}

/// The actions' views.
pub open spec fn storage_actions_view(v: Seq<StorageAction>) -> Seq<StorageActionView> {
    v.map_values(|a: StorageAction| a@)
}

/// The text of fetched data after decryption: each decrypted block without
/// its padding, decoded, and joined.
pub open spec fn opened_text(data: Seq<char>, password: Seq<char>) -> Seq<char> {
    concat_chars(
        cypher_blocks(parse_blocks(data), password).map_values(
            |b: Seq<u8>| utf8_lossy(block_text_bytes(b)),
        ),
    )
}

/// Where the client is in a connection.
pub enum StorageStateView {
    /// Waiting for the answer to the login.
    AwaitLogin,
    /// Waiting for a command.
    Idle,
    /// Storing this data: waiting for the name to be accepted.
    AwaitNameAck(Seq<char>),
    /// Storing this data: waiting for its length to be accepted.
    AwaitLengthAck(Seq<char>),
    /// Waiting for the answer to the stored data.
    AwaitStored,
    /// Fetching: waiting for the length of the data.
    AwaitFetchLength,
    /// Fetching: waiting for the data.
    AwaitFetchData,
    /// Waiting for the password of this fetched data.
    AwaitPassword(Seq<char>),
    /// Listing: waiting for the length of the list.
    AwaitListLength,
    /// Listing: waiting for the list.
    AwaitList,
    /// Waiting for the answer to leaving.
    AwaitExit,
    /// The connection is over.
    Done,
}

/// Waiting for the next command.
pub open spec fn idle(actions: Seq<StorageActionView>) -> (StorageStateView, Seq<StorageActionView>) {
    (StorageStateView::Idle, actions.push(StorageActionView::AskCommand))
}

/// What the client does on an event: its next state and its actions.
pub open spec fn storage_client_step(s: StorageStateView, e: StorageEventView) -> (
    StorageStateView,
    Seq<StorageActionView>,
) {
    match (s, e) {
        (StorageStateView::AwaitLogin, StorageEventView::Received(m)) => match m {
            MessageView::Ack => idle(seq![StorageActionView::Show("Logged in"@)]),
            MessageView::Error(err) => idle(seq![StorageActionView::ShowError(err)]),
            _ => idle(seq![StorageActionView::ShowError("Communication Error"@)]),
        },
        (StorageStateView::Idle, StorageEventView::Command(c)) => match c {
            StorageCommandView::Store(name, data) => (
                StorageStateView::AwaitNameAck(data),
                seq![
                    StorageActionView::Send(MessageView::Store(name)),
                    StorageActionView::Receive(16),
                ],
            ),
            StorageCommandView::Fetch(name) => (
                StorageStateView::AwaitFetchLength,
                seq![
                    StorageActionView::Send(MessageView::Get(name)),
                    StorageActionView::Receive(16),
                ],
            ),
            StorageCommandView::List => (
                StorageStateView::AwaitListLength,
                seq![StorageActionView::Send(MessageView::List), StorageActionView::Receive(16)],
            ),
            StorageCommandView::Exit => (
                StorageStateView::AwaitExit,
                seq![StorageActionView::Send(MessageView::Exit), StorageActionView::Receive(16)],
            ),
        },
        (StorageStateView::AwaitNameAck(data), StorageEventView::Received(m)) => match m {
            MessageView::Ack => (
                StorageStateView::AwaitLengthAck(data),
                seq![
                    StorageActionView::Send(MessageView::Length(encode_utf8(data).len())),
                    StorageActionView::Receive(16),
                ],
            ),
            _ => idle(seq![]),
        },
        (StorageStateView::AwaitLengthAck(data), StorageEventView::Received(m)) => match m {
            MessageView::Ack => (
                StorageStateView::AwaitStored,
                seq![
                    StorageActionView::Send(MessageView::Data(data)),
                    StorageActionView::Receive(16),
                ],
            ),
            _ => idle(seq![]),
        },
        (StorageStateView::AwaitStored, StorageEventView::Received(m)) => match m {
            MessageView::Error(err) => idle(seq![StorageActionView::ShowError(err)]),
            _ => idle(seq![]),
        },
        (StorageStateView::AwaitFetchLength, StorageEventView::Received(m)) => match m {
            MessageView::Length(n) => (
                StorageStateView::AwaitFetchData,
                seq![StorageActionView::Send(MessageView::Ack), StorageActionView::Receive(n)],
            ),
            _ => idle(seq![StorageActionView::Opened("Data doesn't exist"@)]),
        },
        (StorageStateView::AwaitFetchData, StorageEventView::Received(m)) => match m {
            MessageView::Data(d) => (
                StorageStateView::AwaitPassword(d),
                seq![StorageActionView::AskPassword],
            ),
            _ => idle(seq![StorageActionView::Opened("Didn't recieve data"@)]),
        },
        (StorageStateView::AwaitPassword(d), StorageEventView::Password(p)) => idle(
            seq![StorageActionView::Opened(opened_text(d, p))],
        ),
        (StorageStateView::AwaitListLength, StorageEventView::Received(m)) => match m {
            MessageView::Length(n) => (
                StorageStateView::AwaitList,
                seq![StorageActionView::Send(MessageView::Ack), StorageActionView::Receive(n)],
            ),
            _ => idle(seq![]),
        },
        (StorageStateView::AwaitList, StorageEventView::Received(m)) => match m {
            MessageView::Data(files) => idle(seq![StorageActionView::Show(files)]),
            _ => idle(seq![]),
        },
        (StorageStateView::AwaitExit, StorageEventView::Received(_)) => (
            StorageStateView::Done,
            seq![StorageActionView::Close],
        ),
        _ => (StorageStateView::Done, seq![]),
    }
}

/// The event that the client waits for in a state. Fetched data must be
/// hexadecimal lines (decoding anything else panics).
pub open spec fn storage_client_expects(s: StorageStateView, e: StorageEventView) -> bool {
    match s {
        StorageStateView::Idle => e is Command,
        StorageStateView::AwaitPassword(_) => e is Password,
        StorageStateView::AwaitFetchData => match e {
            StorageEventView::Received(MessageView::Data(d)) => hex_lines(d),
            StorageEventView::Received(_) => true,
            _ => false,
        },
        StorageStateView::Done => false,
        _ => e is Received,
    }
}

/// Fetched data that waits for its password is hexadecimal lines.
pub open spec fn storage_client_state_ok(s: StorageStateView) -> bool {
    match s {
        StorageStateView::AwaitPassword(d) => hex_lines(d),
        _ => true,
    }
}

/// Where the client is in a connection.
pub enum StorageState {
    AwaitLogin,
    Idle,
    AwaitNameAck(String),
    AwaitLengthAck(String),
    AwaitStored,
    AwaitFetchLength,
    AwaitFetchData,
    AwaitPassword(String),
    AwaitListLength,
    AwaitList,
    AwaitExit,
    Done,
}

impl View for StorageState {
    type V = StorageStateView;

    open spec fn view(&self) -> StorageStateView {
        match self {
            StorageState::AwaitLogin => StorageStateView::AwaitLogin,
            StorageState::Idle => StorageStateView::Idle,
            StorageState::AwaitNameAck(d) => StorageStateView::AwaitNameAck(d@),
            StorageState::AwaitLengthAck(d) => StorageStateView::AwaitLengthAck(d@),
            StorageState::AwaitStored => StorageStateView::AwaitStored,
            StorageState::AwaitFetchLength => StorageStateView::AwaitFetchLength,
            StorageState::AwaitFetchData => StorageStateView::AwaitFetchData,
            StorageState::AwaitPassword(d) => StorageStateView::AwaitPassword(d@),
            StorageState::AwaitListLength => StorageStateView::AwaitListLength,
            StorageState::AwaitList => StorageStateView::AwaitList,
            StorageState::AwaitExit => StorageStateView::AwaitExit,
            StorageState::Done => StorageStateView::Done,
        }
    }
}

/// The client's side of one connection to the storage server.
pub struct StorageClient {
    login: String,
    state: StorageState,
}

/// What a [StorageClient] holds: the text of its login message, and where
/// it is.
pub struct StorageClientView {
    pub login: Seq<char>,
    pub state: StorageStateView,
}

impl View for StorageClient {
    type V = StorageClientView;

    closed spec fn view(&self) -> StorageClientView {
        StorageClientView { login: self.login@, state: self.state@ }
    }
}

/// Appends one action.
fn push_action(v: &mut Vec<StorageAction>, a: StorageAction)
    ensures
        storage_actions_view(final(v)@) == storage_actions_view(old(v)@).push(a@),
{
    let ghost before = v@;
    v.push(a);
    assert(storage_actions_view(v@) =~= storage_actions_view(before).push(a@));
}

/// Appends the request for the next command.
fn ask_command(v: &mut Vec<StorageAction>) -> (r: StorageState)
    ensures
        (r@, storage_actions_view(final(v)@)) == idle(storage_actions_view(old(v)@)),
{
    push_action(v, StorageAction::AskCommand);
    StorageState::Idle
}

impl StorageClient {
    /// A new connection for a user, before the login is sent.
    pub fn new(username: &str, password: &str) -> (r: StorageClient)
        ensures
            r@ == (StorageClientView {
                login: login_text(username@, password@),
                state: StorageStateView::AwaitLogin,
            }),
    {
        let login = match login_message(username, password) {
            Message::Login(text) => text,
            _ => String::new(),
        };
        StorageClient { login, state: StorageState::AwaitLogin }
    }

    /// The first actions: send the login and read the answer.
    pub fn start(&self) -> (r: Vec<StorageAction>)
        ensures
            storage_actions_view(r@) == seq![
                StorageActionView::Send(MessageView::Login(self@.login)),
                StorageActionView::Receive(16),
            ],
    {
        let mut v: Vec<StorageAction> = Vec::new();
        push_action(&mut v, StorageAction::Send(Message::Login(self.login.clone())));
        push_action(&mut v, StorageAction::Receive(16));
        assert(storage_actions_view(v@) =~= seq![
            StorageActionView::Send(MessageView::Login(self@.login)),
            StorageActionView::Receive(16),
        ]);
        v
    }

    /// The client is waiting for this kind of event.
    pub open spec fn expects(&self, e: StorageEventView) -> bool {
        storage_client_expects(self@.state, e) && storage_client_state_ok(self@.state)
    }

    /// Whether the client waits for fetched data (which must then be
    /// hexadecimal lines).
    pub fn is_fetching(&self) -> (r: bool)
        ensures
            r == (self@.state is AwaitFetchData),
    {
        match self.state {
            StorageState::AwaitFetchData => true,
            _ => false,
        }
    }

    /// Whether the connection is over.
    pub fn is_done(&self) -> (r: bool)
        ensures
            r == (self@.state is Done),
    {
        match self.state {
            StorageState::Done => true,
            _ => false,
        }
    }

    /// Takes an event and gives the actions that follow.
    pub fn step(&mut self, event: StorageEvent) -> (r: Vec<StorageAction>)
        requires
            old(self).expects(event@),
        ensures
            final(self)@.login == old(self)@.login,
            (final(self)@.state, storage_actions_view(r@)) == storage_client_step(
                old(self)@.state,
                event@,
            ),
            storage_client_state_ok(final(self)@.state),
    {
        let mut v: Vec<StorageAction> = Vec::new();
        let mut state = StorageState::Done;
        std::mem::swap(&mut state, &mut self.state);
        let ghost s = state@;
        let ghost e = event@;
        let next = match state {
            StorageState::AwaitLogin => match event {
                StorageEvent::Received(Message::Ack) => {
                    push_action(&mut v, StorageAction::Show(String::from_str("Logged in")));
                    ask_command(&mut v)
                },
                StorageEvent::Received(Message::Error(err)) => {
                    push_action(&mut v, StorageAction::ShowError(err));
                    ask_command(&mut v)
                },
                _ => {
                    push_action(
                        &mut v,
                        StorageAction::ShowError(String::from_str("Communication Error")),
                    );
                    ask_command(&mut v)
                },
            },
            StorageState::Idle => match event {
                StorageEvent::Command(StorageCommand::Store(name, data)) => {
                    push_action(&mut v, StorageAction::Send(Message::Store(name)));
                    push_action(&mut v, StorageAction::Receive(16));
                    StorageState::AwaitNameAck(data)
                },
                StorageEvent::Command(StorageCommand::Fetch(name)) => {
                    push_action(&mut v, StorageAction::Send(Message::Get(name)));
                    push_action(&mut v, StorageAction::Receive(16));
                    StorageState::AwaitFetchLength
                },
                StorageEvent::Command(StorageCommand::List) => {
                    push_action(&mut v, StorageAction::Send(Message::List));
                    push_action(&mut v, StorageAction::Receive(16));
                    StorageState::AwaitListLength
                },
                StorageEvent::Command(StorageCommand::Exit) => {
                    push_action(&mut v, StorageAction::Send(Message::Exit));
                    push_action(&mut v, StorageAction::Receive(16));
                    StorageState::AwaitExit
                },
                _ => StorageState::Done,
            },
            StorageState::AwaitNameAck(data) => match event {
                StorageEvent::Received(Message::Ack) => {
                    let n = data.as_str().as_bytes().len();
                    push_action(&mut v, StorageAction::Send(Message::Length(n)));
                    push_action(&mut v, StorageAction::Receive(16));
                    StorageState::AwaitLengthAck(data)
                },
                _ => ask_command(&mut v),
            },
            StorageState::AwaitLengthAck(data) => match event {
                StorageEvent::Received(Message::Ack) => {
                    push_action(&mut v, StorageAction::Send(Message::Data(data)));
                    push_action(&mut v, StorageAction::Receive(16));
                    StorageState::AwaitStored
                },
                _ => ask_command(&mut v),
            },
            StorageState::AwaitStored => match event {
                StorageEvent::Received(Message::Error(err)) => {
                    push_action(&mut v, StorageAction::ShowError(err));
                    ask_command(&mut v)
                },
                _ => ask_command(&mut v),
            },
            StorageState::AwaitFetchLength => match event {
                StorageEvent::Received(Message::Length(n)) => {
                    push_action(&mut v, StorageAction::Send(Message::Ack));
                    push_action(&mut v, StorageAction::Receive(n));
                    StorageState::AwaitFetchData
                },
                _ => {
                    push_action(&mut v, StorageAction::Opened(String::from_str("Data doesn't exist")));
                    ask_command(&mut v)
                },
            },
            StorageState::AwaitFetchData => match event {
                StorageEvent::Received(Message::Data(d)) => {
                    push_action(&mut v, StorageAction::AskPassword);
                    StorageState::AwaitPassword(d)
                },
                _ => {
                    push_action(
                        &mut v,
                        StorageAction::Opened(String::from_str("Didn't recieve data")),
                    );
                    ask_command(&mut v)
                },
            },
            StorageState::AwaitPassword(d) => match event {
                StorageEvent::Password(p) => {
                    let data = SMsg::cypher_from_hex(d.as_str());
                    let data = data.decrypt(p.as_str());
                    push_action(&mut v, StorageAction::Opened(data.to_string()));
                    ask_command(&mut v)
                },
                _ => StorageState::Done,
            },
            StorageState::AwaitListLength => match event {
                StorageEvent::Received(Message::Length(n)) => {
                    push_action(&mut v, StorageAction::Send(Message::Ack));
                    push_action(&mut v, StorageAction::Receive(n));
                    StorageState::AwaitList
                },
                _ => ask_command(&mut v),
            },
            StorageState::AwaitList => match event {
                StorageEvent::Received(Message::Data(files)) => {
                    push_action(&mut v, StorageAction::Show(files));
                    ask_command(&mut v)
                },
                _ => ask_command(&mut v),
            },
            StorageState::AwaitExit => match event {
                StorageEvent::Received(_) => {
                    push_action(&mut v, StorageAction::Close);
                    StorageState::Done
                },
                _ => StorageState::Done,
            },
            StorageState::Done => StorageState::Done,
        };
        proof {
            assert(storage_actions_view(v@) =~= storage_client_step(s, e).1);
        }
        self.state = next;
        v
    }
}

} // verus!
