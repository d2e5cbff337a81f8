use pwm2_rust::block::Block512;
use pwm2_rust::bytes::Bytes;
use pwm2_rust::connect::sync::{ClientSync, HostSync, SyncAction, SyncEvent};
use pwm2_rust::connect::{
    entry_name_of_file, frame_header, frame_length, get_diff, valid_ip, convert_buffer, Message,
};
use pwm2_rust::data_structures::client_data;
use pwm2_rust::data_structures::server::{data_file, listing, Server, ServerAction, ServerEvent};
use pwm2_rust::data_structures::storage_client::{
    is_hex_lines, login_message, StorageAction, StorageClient, StorageCommand, StorageEvent,
};
use pwm2_rust::data_structures::Message as DataMessage;
use pwm2_rust::edit::{Edit, EditAction, EditKey};
use pwm2_rust::entry::Entry;
use pwm2_rust::entry_file::{entry_file_name, EntryFile};
use pwm2_rust::random::{generate_random_string, memorable_string, random_special_char, special_char_at};
use pwm2_rust::smsg::{is_hex_one_line, is_hex_string, SMsg};
use pwm2_rust::timestamp::Timestamp;
use pwm2_rust::user_info::{UserInfo, UsernameError};
use pwm2_rust::{confirm_message, encrypt_message_with_password, FromString};

const EMPTY_SHA512: &str = "CF83E1357EEFB8BDF1542850D66D8007D620E4050B5715DC83F4A921D36CE9CE47D0D13C5D85F2B0FF8318D2877EEC2F63B931BD47417A81A538327AF927DA3E";
const PW_SHA512: &str = "BE196838736DDFD0007DD8B2E8F46F22D440D4C5959925CB49135ABC9CDB01E84961AA43DD0DDB6EE59975EB649280D9F44088840AF37451828A6412B9B574FC";
const HI_UNDER_PW: &str = "25BB3CB716355F158C69CF47FBC9614823A0C401DDBE8E2CEFC32960A81D368D84CA28357498E1E0509D3CCA57AC4779611B443B4F5B96442A1D0E129F2B881B";
const BOB_HASH: &str = "B98E52F8B4F0AE94745E17DF8338FB6A754B1CB236EF3717E95740D32CB3974F504F1AD3C7DE383FD57023A2825E776F7C9FBF4A1162C4590224BFB52D2D82EA";

fn hi_block_hex() -> String {
    String::from("6869") + &"3E".repeat(62)
}

fn zeros_hex() -> String {
    "00".repeat(64)
}

fn message_of(text: &str) -> SMsg {
    SMsg::new::<String>(&String::from(text))
}

fn epoch() -> Timestamp {
    Timestamp::new(0, 0).unwrap()
}

fn bob() -> UserInfo {
    UserInfo::new(String::from("bob"), "pw").unwrap()
}

// ------------------------------------------------------------------
// Blocks
// ------------------------------------------------------------------

#[test]
fn block_new_is_zero() {
    let b = Block512::new();
    assert_eq!(b.as_hex(), zeros_hex());
}

#[test]
fn block_hash_of_empty_text() {
    assert_eq!(Block512::get_hash("").as_hex(), EMPTY_SHA512);
    assert_eq!(Block512::get_hash_string("pw"), PW_SHA512);
}

#[test]
fn block_hex_roundtrip() {
    let b = Block512::get_hash("pw");
    let again = Block512::from_hex(&b.as_hex());
    assert_eq!(again.as_hex(), PW_SHA512);
}

#[test]
fn block_from_lower_case_hex() {
    let b = Block512::from_hex(&"ab".repeat(64));
    assert_eq!(b.as_hex(), "AB".repeat(64));
}

#[test]
fn block_xor_involution() {
    let a = Block512::get_hash("a");
    let k = Block512::get_hash("key");
    let twice = a.bitxor(&k).bitxor(&k);
    assert_eq!(twice.as_hex(), a.as_hex());
    assert_eq!(a.bitxor(&a).as_hex(), zeros_hex());
}

#[test]
fn block_to_utf8_string_drops_padding() {
    let m = message_of("hi");
    assert_eq!(m.to_utf8_string(), "hi");
}

#[test]
fn block_debug_text() {
    let b = Block512::new();
    let expected = String::from("[") + &vec!["0"; 64].join(", ") + "]";
    assert_eq!(b.to_string(), expected);
}

// ------------------------------------------------------------------
// Bytes
// ------------------------------------------------------------------

#[test]
fn bytes_of_usize_are_eight() {
    assert_eq!(5usize.to_bytes(), vec![8, 0, 0, 0, 0, 0, 0, 0]);
    assert_eq!(usize::from_bytes(&[3, 1, 0, 0, 0, 0, 0, 0, 9]), 259);
}

#[test]
fn bytes_of_isize_are_eight() {
    assert_eq!((-5isize).to_bytes(), vec![8, 0, 0, 0, 0, 0, 0, 0]);
    assert_eq!(isize::from_bytes(&[255, 255, 255, 255, 255, 255, 255, 255]), -1);
}

#[test]
fn bytes_string_roundtrip() {
    let s = String::from("héllo");
    let b = s.to_bytes();
    assert_eq!(b.len(), 6);
    assert_eq!(String::from_bytes(&b), s);
}

// ------------------------------------------------------------------
// Messages
// ------------------------------------------------------------------

#[test]
fn smsg_new_short_text() {
    let m = message_of("hi");
    assert_eq!(m.len(), 1);
    assert!(m.is_plain());
    assert_eq!(m.to_hex_string(), zeros_hex() + "\n" + &hi_block_hex());
    assert_eq!(m.to_hex_string_one_line(), hi_block_hex());
}

#[test]
fn smsg_new_long_text_has_blocks() {
    let text = "a".repeat(130);
    let m = message_of(&text);
    assert_eq!(m.len(), 3);
    assert_eq!(m.to_utf8_string(), text);
}

#[test]
fn smsg_encrypt_known_values() {
    let mut m = message_of("hi");
    m.encrypt("pw");
    assert!(!m.is_plain());
    assert_eq!(m.to_hex_string(), String::from(PW_SHA512) + "\n" + HI_UNDER_PW);
}

#[test]
fn smsg_decrypt_undoes_encrypt() {
    let mut m = message_of("secret text");
    m.encrypt("pw");
    let back = m.decrypted("pw");
    assert!(back.is_plain());
    assert_eq!(back.to_utf8_string(), "secret text");
    m.decrypt("pw");
    assert_eq!(m.to_utf8_string(), "secret text");
}

#[test]
fn smsg_wrong_password_is_not_plain() {
    let mut m = message_of("hi");
    m.encrypt("pw");
    assert!(!m.decrypted("other").is_plain());
}

#[test]
fn smsg_set_plain() {
    let mut m = message_of("hi");
    m.encrypt("pw");
    m.set_plain();
    assert!(m.is_plain());
}

#[test]
fn smsg_hex_string_roundtrip() {
    let mut m = message_of("hi");
    m.encrypt("pw");
    let text = m.to_hex_string();
    assert!(is_hex_string(&text));
    let back = SMsg::from_hex_string(&text);
    assert_eq!(back.to_hex_string(), text);
}

#[test]
fn smsg_hex_string_keeps_every_block() {
    let mut m = message_of(&"b".repeat(150));
    m.encrypt("pw");
    let text = m.to_hex_string();
    let back = SMsg::from_hex_string(&text);
    assert_eq!(back.len(), 3);
    assert_eq!(back.to_hex_string(), text);
    assert_eq!(back.decrypted("pw").to_utf8_string(), "b".repeat(150));
}

#[test]
fn entry_long_message_survives_file_text() {
    let u = bob();
    let mut m = message_of(&"long password ".repeat(10));
    m.encrypt("pw");
    let f = EntryFile::new(&u, "long", Entry::with_timestamp(epoch(), m));
    let back = EntryFile::try_from_string(&f.to_string()).unwrap();
    let msg = back.get(0).unwrap().get_message();
    assert_eq!(msg.len(), 3);
    assert_eq!(msg.decrypted("pw").to_utf8_string(), "long password ".repeat(10));
    let sent = Message::Entry(back.get(0).unwrap()).to_string();
    match Message::new(&sent) {
        Message::Entry(e) => assert_eq!(e.get_message().decrypted("pw").to_utf8_string(), "long password ".repeat(10)),
        _ => panic!("not an entry"),
    }
}

#[test]
fn smsg_hex_one_line_roundtrip() {
    let m = message_of(&"c".repeat(100));
    let line = m.to_hex_string_one_line();
    assert_eq!(line.len(), 256);
    assert!(is_hex_one_line(&line));
    let back = SMsg::from_hex_string_one_line(&line);
    assert_eq!(back.len(), 2);
    assert_eq!(back.to_utf8_string(), "c".repeat(100));
}

#[test]
fn smsg_hex_one_line_of_nothing() {
    let m = message_of("");
    assert_eq!(m.len(), 0);
    assert_eq!(m.to_hex_string_one_line(), "Failed hex string conversion");
}

#[test]
fn smsg_rejects_bad_hex() {
    assert!(!is_hex_string("zz\n00"));
    assert!(!is_hex_string("00"));
    assert!(is_hex_string("00\n11"));
    assert!(!is_hex_one_line("0g"));
}

#[test]
fn smsg_extract_string() {
    let m = message_of("hello");
    let s: String = m.extract();
    assert_eq!(s.as_bytes()[..5], *"hello".as_bytes());
}

#[test]
fn encrypt_message_with_password_reads_back() {
    let hex = encrypt_message_with_password(String::from("hi"), String::from("pw"));
    assert_eq!(hex, String::from(PW_SHA512) + "\n" + HI_UNDER_PW);
    let m = SMsg::from_hex_string(&hex);
    assert_eq!(m.decrypted("pw").to_utf8_string(), "hi");
}

// ------------------------------------------------------------------
// Users
// ------------------------------------------------------------------

#[test]
fn user_info_errors() {
    assert_eq!(UserInfo::new(String::new(), "pw").unwrap_err(), UsernameError::Empty);
    assert_eq!(UserInfo::new("x".repeat(65), "pw").unwrap_err(), UsernameError::TooLong);
    assert!(UserInfo::new("x".repeat(64), "pw").is_ok());
    assert_eq!(UsernameError::Empty.message(), "Username cannot be empty!");
    assert_eq!(UsernameError::TooLong.message(), "Username too long!");
}

#[test]
fn user_info_hash_known_value() {
    let u = bob();
    assert_eq!(u.username(), "bob");
    assert_eq!(u.hash(), BOB_HASH);
    assert_eq!(u.user_path("./files"), String::from("./files/") + BOB_HASH);
    assert!(u.to_string().starts_with("Name: bob\nHash: "));
}

#[test]
fn user_hash_depends_on_password() {
    let a = UserInfo::new(String::from("bob"), "pw").unwrap();
    let b = UserInfo::new(String::from("bob"), "other").unwrap();
    assert_ne!(a.hash(), b.hash());
}

#[test]
fn confirm_answers() {
    assert_eq!(confirm_message("y"), Some(true));
    assert_eq!(confirm_message("Y"), Some(true));
    assert_eq!(confirm_message(""), Some(true));
    assert_eq!(confirm_message("N"), Some(false));
    assert_eq!(confirm_message("yes"), None);
}

// ------------------------------------------------------------------
// Time, entries and entry files
// ------------------------------------------------------------------

#[test]
fn timestamp_bounds() {
    assert!(Timestamp::new(0, 0).is_some());
    assert!(Timestamp::new(8210266876799, 0).is_some());
    assert!(Timestamp::new(8210266876800, 0).is_none());
    assert!(Timestamp::new(-8334601315200, 0).is_some());
    assert!(Timestamp::new(-8334601315201, 0).is_none());
    assert!(Timestamp::new(0, 1_000_000_000).is_none());
    assert!(Timestamp::new(59, 1_500_000_000).is_some());
    assert!(Timestamp::new(-1, 1_500_000_000).is_some());
}

#[test]
fn timestamp_order() {
    let a = Timestamp::new(10, 5).unwrap();
    let b = Timestamp::new(10, 6).unwrap();
    let c = Timestamp::new(11, 0).unwrap();
    assert!(a.is_before(&b));
    assert!(b.is_before(&c));
    assert!(a.is_before(&c));
    assert!(!b.is_before(&a));
    assert!(!a.is_before(&a));
    assert_eq!(c.seconds(), 11);
    assert_eq!(b.nanoseconds(), 6);
}

#[test]
fn entry_text_format() {
    let e = Entry::with_timestamp(epoch(), message_of("hi"));
    let expected = String::from("1970-01-01T00:00:00Z\n\n") + &zeros_hex() + "\n" + &hi_block_hex();
    assert_eq!(e.to_string(), expected);
}

#[test]
fn entry_text_roundtrip() {
    let t = Timestamp::new(1_700_000_000, 500_000_000).unwrap();
    let mut m = message_of("hi");
    m.encrypt("pw");
    let e = Entry::with_timestamp(t, m);
    let text = e.to_string();
    assert!(text.starts_with("2023-11-14T22:13:20.500Z\n\n"));
    let back = Entry::try_from_string(&text).unwrap();
    assert_eq!(*back.get_timestamp(), t);
    assert_eq!(back.get_message().decrypted("pw").to_utf8_string(), "hi");
    let again = Entry::from_string(&text);
    assert_eq!(again.to_string(), text);
}

#[test]
fn entry_unreadable_text() {
    assert!(Entry::try_from_string("not a date\n\n00\n11").is_none());
    assert!(Entry::try_from_string("1970-01-01T00:00:00Z").is_none());
    assert!(Entry::try_from_string("1970-01-01T00:00:00Z\n\nzz\n00").is_none());
}

#[test]
fn entry_just_date() {
    let e = Entry::with_timestamp(epoch(), message_of("hi"));
    let d = e.just_date();
    assert_eq!(*d.get_timestamp(), epoch());
    assert_eq!(d.get_message().len(), 0);
}

#[test]
fn entry_new_has_a_time() {
    let e = Entry::new(message_of("hi"));
    assert!(Timestamp::new(e.get_timestamp().seconds(), e.get_timestamp().nanoseconds()).is_some());
    assert_eq!(e.get_message().to_utf8_string(), "hi");
}

fn three_entry_file() -> EntryFile {
    let u = bob();
    let mut f = EntryFile::new(&u, "mail", Entry::with_timestamp(Timestamp::new(1, 0).unwrap(), message_of("one")));
    f.add(Entry::with_timestamp(Timestamp::new(2, 0).unwrap(), message_of("two")));
    f.add(Entry::with_timestamp(Timestamp::new(3, 0).unwrap(), message_of("three")));
    f
}

#[test]
fn entry_file_get_counts_from_latest() {
    let f = three_entry_file();
    assert_eq!(f.len(), 3);
    assert_eq!(f.get(0).unwrap().get_message().to_utf8_string(), "three");
    assert_eq!(f.get(2).unwrap().get_message().to_utf8_string(), "one");
    assert!(f.get(3).is_none());
    let dates = f.dates();
    assert_eq!(dates.len(), 3);
    assert_eq!(dates[0].get_timestamp().seconds(), 3);
    assert_eq!(dates[2].get_timestamp().seconds(), 1);
}

#[test]
fn entry_file_remove_errors() {
    let mut f = three_entry_file();
    assert_eq!(f.remove(5), Err(String::from("Index '5' out of range")));
    assert_eq!(f.remove(1), Ok(()));
    assert_eq!(f.len(), 2);
    assert_eq!(f.get(1).unwrap().get_message().to_utf8_string(), "one");
    assert_eq!(f.remove(0), Ok(()));
    assert_eq!(f.remove(0), Err(String::from("Cannot remove last entry")));
    assert_eq!(f.len(), 1);
}

#[test]
fn entry_file_name_and_path() {
    let u = bob();
    let f = three_entry_file();
    let name = entry_file_name(&u, "mail");
    assert_eq!(f.get_name().to_hex_string_one_line(), name);
    assert_eq!(f.get_path(&u, "./files"), String::from("./files/") + BOB_HASH + "/" + &name);
    assert_eq!(entry_name_of_file(&u, &name), "mail");
}

#[test]
fn entry_file_rename() {
    let u = bob();
    let mut f = three_entry_file();
    f.rename(&u, "bank");
    assert_eq!(entry_name_of_file(&u, &f.get_name().to_hex_string_one_line()), "bank");
    assert_eq!(f.len(), 3);
}

#[test]
fn entry_file_text_roundtrip() {
    let u = bob();
    let f = three_entry_file();
    let text = f.to_string();
    assert!(text.contains("\ne\n"));
    let back = EntryFile::try_from_string(&text).unwrap();
    assert_eq!(back.len(), 3);
    assert_eq!(back.get(0).unwrap().get_message().to_utf8_string(), "three");
    assert_eq!(entry_name_of_file(&u, &back.get_name().to_hex_string_one_line()), "mail");
    assert_eq!(back.to_string(), text);
    let again = EntryFile::from_string(&text);
    assert_eq!(again.len(), 3);
}

#[test]
fn entry_file_unreadable_text() {
    assert!(EntryFile::try_from_string("no separator").is_none());
    assert!(EntryFile::try_from_string("00\ne\nnot an entry").is_none());
}

// ------------------------------------------------------------------
// Connections
// ------------------------------------------------------------------

#[test]
fn connect_message_words() {
    assert!(matches!(Message::new("Exit"), Message::Exit));
    assert!(matches!(Message::new("Ok"), Message::Ack));
    assert!(matches!(Message::new("Invalid"), Message::Invalid));
    assert!(matches!(Message::new("Hash abc"), Message::Hash(h) if h == "abc"));
    assert!(matches!(Message::new("Error Hash bad"), Message::Error(e) if e == "Hash bad"));
    assert!(matches!(Message::new("Name Name x"), Message::Name(n) if n == "x"));
    assert!(matches!(Message::new("Request r"), Message::Request(r) if r == "r"));
    assert!(matches!(Message::new("whatever"), Message::Error(e) if e == "Invalid Message"));
}

#[test]
fn connect_message_header() {
    let m = Message::new("Header mail\n1970-01-01T00:00:01Z");
    match m {
        Message::Header((name, t)) => {
            assert_eq!(name, "mail");
            assert_eq!(t.seconds(), 1);
        },
        _ => panic!("not a header"),
    }
    assert!(Message::try_new("Header no line break").is_none());
}

#[test]
fn connect_message_texts() {
    assert_eq!(Message::Ack.to_string(), "Ok");
    assert_eq!(Message::Hash(String::from("h")).to_string(), "Hash h");
    let header = Message::Header((String::from("mail"), Timestamp::new(1, 0).unwrap()));
    let text = header.to_string();
    assert_eq!(text, "Header mail\n1970-01-01T00:00:01Z");
    assert!(matches!(Message::new(&text), Message::Header((n, t)) if n == "mail" && t.seconds() == 1));
}

#[test]
fn connect_message_entry_roundtrip() {
    let e = Entry::with_timestamp(epoch(), message_of("hi"));
    let text = Message::Entry(e).to_string();
    assert!(text.starts_with("Entry 1970"));
    match Message::new(&text) {
        Message::Entry(back) => assert_eq!(back.get_message().to_utf8_string(), "hi"),
        _ => panic!("not an entry"),
    }
}

#[test]
fn connect_valid_ip() {
    assert!(valid_ip("192.168.0.31"));
    assert!(valid_ip("0.0.0.0"));
    assert!(valid_ip("+1.2.3.4"));
    assert!(!valid_ip("256.0.0.1"));
    assert!(!valid_ip("1.2.3"));
    assert!(!valid_ip("1.2.3.4.5"));
    assert!(!valid_ip("a.b.c.d"));
    assert!(!valid_ip("1..2.3"));
}

#[test]
fn connect_convert_buffer() {
    assert_eq!(convert_buffer(&[72, 105, 0, 0, 33]), "Hi");
    assert_eq!(convert_buffer(&[0, 72]), "");
    assert_eq!(convert_buffer(&[72, 255, 105]), "H\u{FFFD}i");
}

#[test]
fn connect_frames() {
    assert_eq!(frame_header("abc"), vec![0, 0, 0, 3]);
    assert_eq!(frame_header(&"x".repeat(300)), vec![0, 0, 1, 44]);
    assert_eq!(frame_length(&[0, 0, 1, 44]), 300);
    assert_eq!(frame_length(&[1, 0, 0, 0]), 16_777_216);
}

#[test]
fn connect_get_diff() {
    let t1 = Timestamp::new(1, 0).unwrap();
    let t2 = Timestamp::new(2, 0).unwrap();
    let a = vec![(String::from("x"), t2), (String::from("y"), t1), (String::from("z"), t1)];
    let b = vec![(String::from("x"), t1), (String::from("y"), t2)];
    let d = get_diff(&a, &b);
    let names: Vec<String> = d.iter().map(|h| h.0.clone()).collect();
    assert_eq!(names, vec![String::from("x"), String::from("z")]);
    let back = get_diff(&b, &a);
    let back_names: Vec<String> = back.iter().map(|h| h.0.clone()).collect();
    assert_eq!(back_names, vec![String::from("y")]);
}

#[test]
fn sync_host_checks_user() {
    let mut host = HostSync::new(String::from("h"));
    assert!(matches!(host.start()[..], [SyncAction::Receive]));
    let actions = host.step(SyncEvent::Received(Message::Hash(String::from("wrong"))));
    assert!(host.is_done());
    assert!(matches!(&actions[..], [SyncAction::Send(Message::Error(_)), SyncAction::Finish(Err(_))]));
}

#[test]
fn sync_host_collects_headers() {
    let mut host = HostSync::new(String::from("h"));
    let actions = host.step(SyncEvent::Received(Message::Hash(String::from("h"))));
    assert!(matches!(actions.last(), Some(SyncAction::Receive)));
    let t = Timestamp::new(5, 0).unwrap();
    let actions = host.step(SyncEvent::Received(Message::Header((String::from("f"), t))));
    assert!(matches!(&actions[..], [SyncAction::Send(Message::Ack), SyncAction::Receive]));
    let actions = host.step(SyncEvent::Received(Message::Ack));
    assert!(matches!(actions.last(), Some(SyncAction::LoadHeaders)));
    let actions = host.step(SyncEvent::Headers(vec![]));
    assert!(actions.iter().any(|a| matches!(a, SyncAction::Send(Message::Request(n)) if n == "f")));
    assert!(!host.is_done());
}

#[test]
fn sync_client_sends_hash_then_headers() {
    let mut client = ClientSync::new(String::from("h"));
    let start = client.start();
    assert!(matches!(&start[..], [SyncAction::Send(Message::Hash(h)), SyncAction::Receive] if h == "h"));
    let actions = client.step(SyncEvent::Received(Message::Ack));
    assert!(matches!(actions.last(), Some(SyncAction::LoadHeaders)));
    let actions = client.step(SyncEvent::Headers(vec![]));
    assert!(matches!(&actions[..], [SyncAction::Send(Message::Ack), SyncAction::Receive]));
    assert!(!client.is_done());
}

// ------------------------------------------------------------------
// The storage server's messages
// ------------------------------------------------------------------

#[test]
fn data_message_words() {
    assert!(matches!(DataMessage::new("Exit"), DataMessage::Exit));
    assert!(matches!(DataMessage::new("Ok"), DataMessage::Ack));
    assert!(matches!(DataMessage::new("List"), DataMessage::List));
    assert!(matches!(DataMessage::new("Length 42"), DataMessage::Length(42)));
    assert!(matches!(DataMessage::new("Set Set a"), DataMessage::Store(s) if s == "a"));
    assert!(matches!(DataMessage::new("Login me"), DataMessage::Login(s) if s == "me"));
    assert!(matches!(DataMessage::new("Remove r"), DataMessage::Remove(s) if s == "r"));
    assert!(matches!(DataMessage::new("Nope"), DataMessage::Error(e) if e == "Invalid Message"));
}

#[test]
fn data_message_roundtrip() {
    let texts = ["Exit", "Ok", "List", "Error e", "Login l", "Data d", "Get g", "Set s", "Length 7", "Remove r"];
    for t in texts {
        assert_eq!(DataMessage::new(t).to_string(), t);
    }
    assert_eq!(DataMessage::Length(usize::MAX).to_string(), format!("Length {}", usize::MAX));
}

#[test]
fn server_paths_and_listing() {
    assert_eq!(data_file("bob", "mail"), "./files/bob/mail.txt");
    let names = vec![String::from("a.txt"), String::from("b.txt.txt"), String::from("c")];
    assert_eq!(listing(&names), "a\nb\nc\n");
}

#[test]
fn server_session() {
    let mut server = Server::new();
    assert!(matches!(server.start()[..], [ServerAction::Receive(128)]));
    let a = server.step(ServerEvent::Received(DataMessage::Login(String::from("bob  "))));
    assert!(matches!(&a[..], [ServerAction::Send(DataMessage::Ack), ServerAction::CreateDir(d), ServerAction::Log(_), ServerAction::Receive(16)] if d == "./files/bob"));
    let a = server.step(ServerEvent::Received(DataMessage::Store(String::from("mail"))));
    assert!(matches!(&a[..], [ServerAction::Send(DataMessage::Ack), ServerAction::Receive(16)]));
    let a = server.step(ServerEvent::Received(DataMessage::Length(5)));
    assert!(matches!(&a[..], [ServerAction::Send(DataMessage::Ack), ServerAction::Receive(5)]));
    let a = server.step(ServerEvent::Received(DataMessage::Data(String::from("hello"))));
    assert!(matches!(&a[..], [ServerAction::WriteFile(p, t)] if p == "./files/bob/mail.txt" && t == "hello"));
    let a = server.step(ServerEvent::Written(Ok(())));
    assert!(matches!(&a[..], [ServerAction::Send(DataMessage::Ack), ServerAction::Receive(16)]));
    let a = server.step(ServerEvent::Received(DataMessage::Get(String::from("mail"))));
    assert!(matches!(&a[..], [ServerAction::ReadFile(p)] if p == "./files/bob/mail.txt"));
    let a = server.step(ServerEvent::FileRead(Some(String::from("héllo"))));
    assert!(matches!(&a[..], [ServerAction::Send(DataMessage::Length(6)), ServerAction::Receive(16)]));
    let a = server.step(ServerEvent::Received(DataMessage::Ack));
    assert!(matches!(&a[..], [ServerAction::Send(DataMessage::Data(d)), ServerAction::Receive(16)] if d == "héllo"));
    let a = server.step(ServerEvent::Received(DataMessage::Exit));
    assert!(matches!(&a[..], [ServerAction::Send(DataMessage::Ack), ServerAction::Log(_), ServerAction::Finish]));
    assert!(server.is_closed());
}

#[test]
fn server_needs_login() {
    let mut server = Server::new();
    let a = server.step(ServerEvent::Received(DataMessage::List));
    assert!(matches!(&a[..], [ServerAction::Send(DataMessage::Error(e)), ServerAction::Close] if e == "You need to login"));
    assert!(server.is_closed());
}

#[test]
fn server_remove_and_errors() {
    let mut server = Server::new();
    server.step(ServerEvent::Received(DataMessage::Login(String::from("bob"))));
    let a = server.step(ServerEvent::Received(DataMessage::Remove(String::from("x"))));
    assert!(matches!(&a[..], [ServerAction::CheckFile(p)] if p == "./files/bob/x.txt"));
    let a = server.step(ServerEvent::Exists(false));
    assert!(matches!(&a[..], [ServerAction::Send(DataMessage::Error(e)), ServerAction::Receive(16)] if e == "File 'x' does not exist"));
    server.step(ServerEvent::Received(DataMessage::Remove(String::from("x"))));
    let a = server.step(ServerEvent::Exists(true));
    assert!(matches!(&a[..], [ServerAction::Send(DataMessage::Ack), ServerAction::Receive(16)]));
    let a = server.step(ServerEvent::Received(DataMessage::Remove(String::from("x"))));
    assert!(matches!(&a[..], [ServerAction::RemoveFile(p)] if p == "./files/bob/x.txt"));
    let a = server.step(ServerEvent::Removed(Err(String::from("denied"))));
    assert!(matches!(&a[..], [ServerAction::Log(_), ServerAction::Send(DataMessage::Error(e)), ServerAction::Receive(16)] if e == "Error removing 'x'"));
    let a = server.step(ServerEvent::Received(DataMessage::Store(String::from("y"))));
    assert!(matches!(&a[..], [ServerAction::Send(DataMessage::Ack), ServerAction::Receive(16)]));
    let a = server.step(ServerEvent::Received(DataMessage::List));
    assert!(matches!(&a[..], [ServerAction::Send(DataMessage::Error(e)), ServerAction::Receive(16)] if e == "Invalid message"));
    let a = server.step(ServerEvent::Received(DataMessage::Data(String::from("d"))));
    assert!(matches!(&a[..], [ServerAction::Send(DataMessage::Error(e)), ServerAction::LogError(_), ServerAction::Finish] if e == "Invalid Command: Data d"));
}

// ------------------------------------------------------------------
// The client's plain and cypher messages
// ------------------------------------------------------------------

#[test]
fn client_block_padding() {
    let b = client_data::Block512::from_bytes(&[1, 2, 3]);
    assert_eq!(b.as_hex(), String::from("010203") + &"3D".repeat(61));
    let z = client_data::Block512::new();
    assert_eq!(b.bitxor(&z).as_hex(), b.as_hex());
}

#[test]
fn client_encrypt_decrypt() {
    let m = client_data::SMsg::plain_from_str("hi");
    assert_eq!(m.len(), 1);
    assert_eq!(m.to_string(), "hi");
    let c = m.encrypt("pw");
    assert_eq!(c.to_string_hex(), HI_UNDER_PW);
    let again = c.encrypt("pw");
    assert_eq!(again.to_string_hex(), HI_UNDER_PW);
    let back = again.decrypt("pw");
    assert_eq!(back.to_string(), "hi");
}

#[test]
fn client_cypher_from_hex() {
    let c = client_data::SMsg::cypher_from_hex(HI_UNDER_PW);
    assert_eq!(c.decrypt("pw").to_string(), "hi");
    let plain = client_data::SMsg::plain_from_str("ab");
    assert_eq!(plain.decrypt("pw").to_string(), "ab");
}

// ------------------------------------------------------------------
// The editor
// ------------------------------------------------------------------

#[test]
fn edit_lines_and_text() {
    assert_eq!(Edit::new().get(), "No Data");
    let e = Edit::from_string(String::from("  one\ntwo\r\nthree  "));
    assert_eq!(e.get(), "one\ntwo\nthree");
}

#[test]
fn edit_moves_wrap() {
    let mut e = Edit::from_string(String::from("a\nbb\nccc"));
    match e.handle_key(EditKey::Up) {
        EditAction::Show(w, line) => {
            assert_eq!(w, 0);
            assert_eq!(line, "ccc");
        },
        _ => panic!("expected a line"),
    }
    match e.handle_key(EditKey::Down) {
        EditAction::Show(w, line) => {
            assert_eq!(w, 3);
            assert_eq!(line, "a");
        },
        _ => panic!("expected a line"),
    }
    match e.handle_key(EditKey::Down) {
        EditAction::Show(_, line) => assert_eq!(line, "bb"),
        _ => panic!("expected a line"),
    }
}

#[test]
fn edit_keys() {
    let mut e = Edit::from_string(String::from("a\nb"));
    assert!(matches!(e.handle_key(EditKey::Space), EditAction::ReadLine));
    assert!(matches!(e.handle_key(EditKey::Other), EditAction::Nothing));
    assert!(matches!(e.handle_key(EditKey::Right), EditAction::Nothing));
    assert_eq!(e.get(), "a\nb");
    match e.handle_key(EditKey::Left) {
        EditAction::Show(_, line) => assert_eq!(line, ""),
        _ => panic!("expected a line"),
    }
    assert_eq!(e.get(), "b");
    assert!(matches!(e.handle_key(EditKey::Escape), EditAction::Stop(0)));
}

#[test]
fn edit_replace_line() {
    let mut e = Edit::from_string(String::from("a\nb"));
    let shown = e.edit_line("  new line \n");
    assert_eq!(shown, "new line");
    assert_eq!(e.get(), "new line\nb");
    assert!(matches!(e.handle_key(EditKey::Escape), EditAction::Stop(8)));
}

// ------------------------------------------------------------------
// Random text
// ------------------------------------------------------------------

#[test]
fn random_string_shape() {
    let s = generate_random_string(40);
    assert_eq!(s.chars().count(), 40);
    assert!(s.chars().all(|c| ('!'..='~').contains(&c)));
    assert_eq!(generate_random_string(0), "");
}

#[test]
fn random_special_char_is_special() {
    for _ in 0..100 {
        let c = random_special_char();
        assert!(c.is_ascii_punctuation());
    }
}

#[test]
fn memorable_string_shape() {
    for length in [0usize, 1, 5, 12, 30] {
        let s = memorable_string(length);
        if length == 0 {
            assert_eq!(s, "");
            continue;
        }
        assert!(s.len() >= length && s.len() <= length + 6);
        let sep = s.chars().find(|c| !c.is_ascii_alphanumeric());
        let runs: Vec<&str> = match sep {
            Some(c) => s.split(c).collect(),
            None => vec![s.as_str()],
        };
        for (i, run) in runs.iter().enumerate() {
            if i + 1 < runs.len() || !run.is_empty() {
                assert!(run.len() >= 4 && run.len() <= 7, "run {:?} in {:?}", run, s);
                assert!(run.chars().all(|c| c.is_ascii_alphanumeric()));
            }
        }
    }
}

#[test]
fn connect_diff_with_itself_is_empty() {
    let t1 = Timestamp::new(1, 0).unwrap();
    let t2 = Timestamp::new(2, 0).unwrap();
    let a = vec![(String::from("x"), t2), (String::from("y"), t1)];
    assert!(get_diff(&a, &a).is_empty());
}

#[test]
fn smsg_long_ascii_text_roundtrip() {
    let text = "The quick brown fox jumps over the lazy dog. ".repeat(5);
    let mut m = message_of(&text);
    m.encrypt("pw");
    m.decrypt("pw");
    assert_eq!(m.to_utf8_string(), text);
}

#[test]
fn smsg_text_ending_like_padding_is_cut() {
    let text = "1".repeat(64);
    let m = message_of(&text);
    assert_eq!(m.to_utf8_string(), "1".repeat(15));
}

#[test]
fn client_hex_roundtrip_keeps_blocks() {
    let c = client_data::SMsg::plain_from_str(&"x".repeat(100)).encrypt("pw");
    let hex = c.to_string_hex();
    let back = client_data::SMsg::cypher_from_hex(&hex);
    assert_eq!(back.len(), 2);
    assert_eq!(back.to_string_hex(), hex);
    assert_eq!(back.decrypt("pw").to_string(), "x".repeat(100));
}

#[test]
fn client_long_text_roundtrip() {
    let text = "plain text of the client, ".repeat(4);
    assert_eq!(client_data::SMsg::plain_from_str(&text).to_string(), text);
}

#[test]
fn edit_text_roundtrip() {
    let e = Edit::from_string(String::from("  first\nsecond\n\n"));
    assert_eq!(e.get(), "first\nsecond");
}

#[test]
fn frame_message_roundtrip() {
    let m = Message::Request(String::from("mail é"));
    let text = m.to_string();
    let header = frame_header(&text);
    assert_eq!(frame_length(&header) as usize, text.len());
    let mut buf = text.as_bytes().to_vec();
    buf.extend_from_slice(&[0, 0, 0]);
    let read = convert_buffer(&buf);
    assert_eq!(read, text);
    assert!(matches!(Message::new(&read), Message::Request(n) if n == "mail é"));
}

#[test]
fn special_chars_in_order() {
    assert_eq!(special_char_at(0), '!');
    assert_eq!(special_char_at(14), '/');
    assert_eq!(special_char_at(15), ':');
    assert_eq!(special_char_at(21), '@');
    assert_eq!(special_char_at(22), '[');
    assert_eq!(special_char_at(27), '`');
    assert_eq!(special_char_at(28), '{');
    assert_eq!(special_char_at(31), '~');
}

const BOB_LOGIN: &str = "2FBD60B415365C168F6ACC44F8CA624B20A3C702DEBD8D2FECC02A63AB1E358E87C92B36779BE2E3539E3FC954AF447A621847384C589547291E0D119C288B18";

#[test]
fn storage_login_message() {
    assert!(matches!(login_message("bob", "pw"), DataMessage::Login(t) if t == BOB_LOGIN));
    let client = StorageClient::new("bob", "pw");
    assert!(matches!(&client.start()[..], [StorageAction::Send(DataMessage::Login(t)), StorageAction::Receive(16)] if t == BOB_LOGIN));
}

#[test]
fn storage_client_store() {
    let mut c = StorageClient::new("bob", "pw");
    let a = c.step(StorageEvent::Received(DataMessage::Ack));
    assert!(matches!(&a[..], [StorageAction::Show(t), StorageAction::AskCommand] if t == "Logged in"));
    let a = c.step(StorageEvent::Command(StorageCommand::Store(String::from("mail"), String::from("héllo"))));
    assert!(matches!(&a[..], [StorageAction::Send(DataMessage::Store(n)), StorageAction::Receive(16)] if n == "mail"));
    let a = c.step(StorageEvent::Received(DataMessage::Ack));
    assert!(matches!(&a[..], [StorageAction::Send(DataMessage::Length(6)), StorageAction::Receive(16)]));
    let a = c.step(StorageEvent::Received(DataMessage::Ack));
    assert!(matches!(&a[..], [StorageAction::Send(DataMessage::Data(d)), StorageAction::Receive(16)] if d == "héllo"));
    let a = c.step(StorageEvent::Received(DataMessage::Error(String::from("full"))));
    assert!(matches!(&a[..], [StorageAction::ShowError(e), StorageAction::AskCommand] if e == "full"));
    let a = c.step(StorageEvent::Command(StorageCommand::Exit));
    assert!(matches!(&a[..], [StorageAction::Send(DataMessage::Exit), StorageAction::Receive(16)]));
    let a = c.step(StorageEvent::Received(DataMessage::Ack));
    assert!(matches!(&a[..], [StorageAction::Close]));
    assert!(c.is_done());
}

#[test]
fn storage_client_fetch_and_list() {
    let mut c = StorageClient::new("bob", "pw");
    let a = c.step(StorageEvent::Received(DataMessage::List));
    assert!(matches!(&a[..], [StorageAction::ShowError(e), StorageAction::AskCommand] if e == "Communication Error"));
    c.step(StorageEvent::Command(StorageCommand::Fetch(String::from("mail"))));
    let a = c.step(StorageEvent::Received(DataMessage::Length(128)));
    assert!(matches!(&a[..], [StorageAction::Send(DataMessage::Ack), StorageAction::Receive(128)]));
    assert!(c.is_fetching());
    assert!(is_hex_lines(HI_UNDER_PW));
    let a = c.step(StorageEvent::Received(DataMessage::Data(String::from(HI_UNDER_PW))));
    assert!(matches!(&a[..], [StorageAction::AskPassword]));
    let a = c.step(StorageEvent::Password(String::from("pw")));
    assert!(matches!(&a[..], [StorageAction::Opened(t), StorageAction::AskCommand] if t == "hi"));
    c.step(StorageEvent::Command(StorageCommand::Fetch(String::from("none"))));
    let a = c.step(StorageEvent::Received(DataMessage::Error(String::from("Couldn't read file"))));
    assert!(matches!(&a[..], [StorageAction::Opened(t), StorageAction::AskCommand] if t == "Data doesn't exist"));
    c.step(StorageEvent::Command(StorageCommand::List));
    let a = c.step(StorageEvent::Received(DataMessage::Length(5)));
    assert!(matches!(&a[..], [StorageAction::Send(DataMessage::Ack), StorageAction::Receive(5)]));
    let a = c.step(StorageEvent::Received(DataMessage::Data(String::from("mail\n"))));
    assert!(matches!(&a[..], [StorageAction::Show(f), StorageAction::AskCommand] if f == "mail\n"));
    assert!(!is_hex_lines("zz"));
}
