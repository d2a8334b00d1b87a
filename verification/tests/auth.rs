use ellidri::auth::{
    choose_provider, decoded_response, plain_outcome, split_plain, write_buffer, write_chunks,
    AnyProvider, DbProvider, DummyProvider, Error, Plain, Provider, SaslBackend, State,
};
use ellidri::client::{are_supported, parse_cap, Cap, Capabilities, Client};
use ellidri::message::Command;
use ellidri::reply::ReplyBuffer;

struct Store {
    up: bool,
}

impl Plain for Store {
    fn ready(&self) -> bool {
        self.up
    }

    fn plain(&self, user: &[u8], pass: &[u8]) -> Result<(), ()> {
        if self.up && user == b"alice" && pass == b"secret" {
            Ok(())
        } else {
            Err(())
        }
    }
}

fn staged(rb: &ReplyBuffer) -> Vec<String> {
    rb.lines.iter().map(|l| String::from_utf8(l.data.clone()).unwrap()).collect()
}

#[test]
fn dummy_provider_is_never_available() {
    let p = DummyProvider;
    let mut next = Vec::new();
    assert!(!p.is_available());
    assert_eq!(p.start_auth(b"PLAIN", &mut next), Err(Error::ProviderUnavailable));
    assert_eq!(p.next_challenge(0, b"\0a\0b", &mut next), Err(Error::ProviderUnavailable));
    let mut mechanisms = Vec::new();
    p.write_mechanisms(&mut mechanisms);
    assert!(mechanisms.is_empty() && next.is_empty());
    assert_eq!(State::default(), State::Unauthenticated);
}

#[test]
fn plain_response_is_parted_at_its_nuls() {
    assert_eq!(split_plain(b"\0alice\0secret"), Some((b"alice".to_vec(), b"secret".to_vec())));
    assert_eq!(split_plain(b"z\0alice\0secret\0more"), Some((b"alice".to_vec(), b"secret".to_vec())));
    assert_eq!(split_plain(b"\0alice\0"), Some((b"alice".to_vec(), Vec::new())));
    assert_eq!(split_plain(b"alice\0secret"), None);
    assert_eq!(split_plain(b""), None);
}

#[test]
fn db_provider_checks_plain_credentials() {
    let p = DbProvider::new(Store { up: true });
    let mut next = Vec::new();
    assert!(p.is_available());
    assert_eq!(p.start_auth(b"PLAIN", &mut next), Ok(0));
    assert_eq!(p.start_auth(b"plain", &mut next), Err(Error::UnsupportedMechanism));
    assert_eq!(p.next_challenge(0, b"\0alice\0secret", &mut next), Ok(Some(b"alice".to_vec())));
    assert_eq!(p.next_challenge(0, b"\0alice\0wrong", &mut next), Err(Error::InvalidCredentials));
    assert_eq!(p.next_challenge(0, b"alice secret", &mut next), Err(Error::BadFormat));
    assert_eq!(p.next_challenge(0, b"\0al\xffice\0secret", &mut next), Err(Error::BadFormat));
    assert_eq!(p.next_challenge(0, b"\0alice\0\xc3\x28", &mut next), Err(Error::BadFormat));
    let mut mechanisms = b"sasl=".to_vec();
    p.write_mechanisms(&mut mechanisms);
    assert_eq!(mechanisms, b"sasl=PLAIN".to_vec());
    assert!(next.is_empty());
    assert!(!DbProvider::new(Store { up: false }).is_available());
}

#[test]
fn outcomes_of_the_store_and_of_the_decoder() {
    assert_eq!(plain_outcome(b"alice".to_vec(), Ok(())), Ok(Some(b"alice".to_vec())));
    assert_eq!(plain_outcome(b"alice".to_vec(), Err(())), Err(Error::InvalidCredentials));
    assert_eq!(decoded_response(Some(b"x".to_vec())), Ok(b"x".to_vec()));
    assert_eq!(decoded_response(None), Err(Error::BadBase64));
}

#[test]
fn provider_is_chosen_by_the_backend() {
    let none: Option<Store> = None;
    assert!(matches!(choose_provider(SaslBackend::Disabled, none), Some(AnyProvider::Dummy(_))));
    let p = choose_provider(SaslBackend::Database, Some(Store { up: true })).unwrap();
    assert!(matches!(p, AnyProvider::Database(_)));
    assert!(p.is_available());
    let mut next = Vec::new();
    assert_eq!(p.start_auth(b"PLAIN", &mut next), Ok(0));
    let none: Option<Store> = None;
    assert!(choose_provider(SaslBackend::Database, none).is_none());
    let dummy = choose_provider(SaslBackend::Disabled, Some(Store { up: true })).unwrap();
    assert!(!dummy.is_available());
}

#[test]
fn challenge_is_sent_as_base64() {
    let mut rb = ReplyBuffer::new(b"elli.dri", b"ser", b"", b"");
    write_buffer(&mut rb, b"hello world");
    assert_eq!(staged(&rb), vec![":elli.dri AUTHENTICATE aGVsbG8gd29ybGQ=\r\n".to_string()]);
    let mut rb = ReplyBuffer::new(b"elli.dri", b"ser", b"", b"");
    write_buffer(&mut rb, b"");
    assert_eq!(staged(&rb), vec![":elli.dri AUTHENTICATE +\r\n".to_string()]);
}

#[test]
fn long_text_is_sent_in_chunks_of_400() {
    let mut rb = ReplyBuffer::new(b"elli.dri", b"ser", b"", b"");
    let text = vec![b'A'; 900];
    write_chunks(&mut rb, &text);
    let lines = staged(&rb);
    assert_eq!(lines.len(), 3);
    assert_eq!(lines[0].len(), ":elli.dri AUTHENTICATE ".len() + 400 + 2);
    assert_eq!(lines[2].len(), ":elli.dri AUTHENTICATE ".len() + 100 + 2);

    let mut rb = ReplyBuffer::new(b"elli.dri", b"ser", b"", b"");
    write_chunks(&mut rb, &vec![b'A'; 800]);
    let lines = staged(&rb);
    assert_eq!(lines.len(), 3);
    assert_eq!(lines[2], ":elli.dri AUTHENTICATE +\r\n");

    let mut rb = ReplyBuffer::new(b"elli.dri", b"ser", b"", b"");
    write_buffer(&mut rb, &vec![0u8; 300]);
    let lines = staged(&rb);
    assert_eq!(lines.len(), 2);
    assert_eq!(lines[1], ":elli.dri AUTHENTICATE +\r\n");
}

#[test]
fn authenticate_payloads_are_collected_and_decoded() {
    let mut c = Client::new(b"host".to_vec(), 5);
    assert_eq!(c.auth_buffer_push(&vec![b'A'; 400]), Ok(false));
    assert_eq!(c.auth_buffer_push(b"QQ=="), Ok(true));
    assert_eq!(c.auth_buffer.len(), 404);
    let decoded = c.auth_buffer_decode().unwrap();
    assert_eq!(decoded.len(), 301);
    assert_eq!(decoded[300], b'A');
    assert!(c.auth_buffer.is_empty());

    assert_eq!(c.auth_buffer_push(b"+"), Ok(true));
    assert!(c.auth_buffer.is_empty());
    assert_eq!(c.auth_buffer_decode(), Some(Vec::new()));
    assert_eq!(c.auth_buffer_push(b"not base64!"), Ok(true));
    assert_eq!(c.auth_buffer_decode(), None);

    assert_eq!(c.auth_buffer_push(&vec![b'A'; 1024]), Ok(false));
    assert_eq!(c.auth_buffer_push(b"A"), Err(()));
    assert_eq!(c.auth_buffer.len(), 1024);
    c.auth_id = Some(3);
    c.auth_reset();
    assert!(c.auth_buffer.is_empty() && c.auth_id.is_none());
}

#[test]
fn registration_needs_every_condition() {
    let mut c = Client::new(b"host".to_vec(), 5);
    assert!(c.can_issue_command(Command::Nick));
    assert!(c.can_issue_command(Command::Quit));
    assert!(!c.can_issue_command(Command::Join));
    assert!(!c.can_issue_command(Command::Ping));
    assert!(!c.apply_command(Command::Cap, b"LS", true).registered);
    assert!(!c.apply_command(Command::Nick, b"ser", true).registered);
    assert!(!c.apply_command(Command::User, b"ser", true).registered);
    assert!(!c.apply_command(Command::Cap, b"END", true).registered);
    assert!(c.apply_command(Command::Pass, b"x", true).registered);
    assert!(c.is_registered());
    assert!(c.apply_command(Command::Cap, b"REQ", true).registered);
    assert!(!c.state.cap_pending);
    assert!(c.can_issue_command(Command::Join));
    assert!(c.can_issue_command(Command::Nick));
    assert!(!c.can_issue_command(Command::User));
    assert!(!c.can_issue_command(Command::Pass));

    let mut d = Client::new(b"host".to_vec(), 5);
    d.auth_id = Some(0);
    let _ = d.apply_command(Command::Nick, b"ser", false);
    assert!(!d.apply_command(Command::User, b"ser", false).registered);
    d.auth_id = None;
    assert!(d.apply_command(Command::Authenticate, b"x", false).registered);
    assert_eq!(d.full_name(), b"!~@host".to_vec());
}

#[test]
fn capabilities_are_known_by_name() {
    assert_eq!(parse_cap(b"sasl"), Some(Cap::Sasl));
    assert_eq!(parse_cap(b"SASL"), None);
    assert!(are_supported(b"  sasl   -batch userhost-in-names "));
    assert!(are_supported(b""));
    assert!(!are_supported(b"sasl unknown"));
    assert!(!are_supported(b"-"));
    let mut caps = Client::new(Vec::new(), 0).capabilities;
    caps.update(b"sasl server-time -sasl batch");
    assert!(!caps.sasl && caps.server_time && caps.batch);
    assert!(caps.is_enabled(Cap::Batch) && !caps.is_enabled(Cap::Sasl));
    assert!(caps.has_message_tags());
    assert!(!caps.has_labeled_response());
    assert!(!caps.is_capable_of(Command::Authenticate));
    assert!(caps.is_capable_of(Command::TagMsg));
    assert!(caps.is_capable_of(Command::Join));
    assert!(!caps.is_capable_of(Command::SetName));
    caps.set(Cap::SetName, true);
    assert!(caps.is_capable_of(Command::SetName));
    let mut names = Vec::new();
    caps.write_enabled(&mut names);
    assert_eq!(names, b"batch server-time setname ".to_vec());
    let copy: Capabilities = caps;
    assert_eq!(copy, caps);
}

#[test]
fn chosen_provider_does_what_the_provider_inside_does() {
    let p = choose_provider(SaslBackend::Database, Some(Store { up: true })).unwrap();
    let mut mechanisms = b"sasl=".to_vec();
    p.write_mechanisms(&mut mechanisms);
    assert_eq!(mechanisms, b"sasl=PLAIN".to_vec());
    let mut next = Vec::new();
    assert_eq!(p.start_auth(b"EXTERNAL", &mut next), Err(Error::UnsupportedMechanism));
    assert_eq!(p.next_challenge(0, b"\0alice\0secret", &mut next), Ok(Some(b"alice".to_vec())));
    assert_eq!(p.next_challenge(0, b"\0alice\0wrong", &mut next), Err(Error::InvalidCredentials));
    assert_eq!(p.next_challenge(0, b"alice", &mut next), Err(Error::BadFormat));
    assert!(next.is_empty());
    let dummy = choose_provider(SaslBackend::Disabled, Some(Store { up: true })).unwrap();
    let mut mechanisms = b"sasl=".to_vec();
    dummy.write_mechanisms(&mut mechanisms);
    assert_eq!(mechanisms, b"sasl=".to_vec());
    assert_eq!(dummy.start_auth(b"PLAIN", &mut next), Err(Error::ProviderUnavailable));
    assert_eq!(dummy.next_challenge(0, b"\0alice\0secret", &mut next), Err(Error::ProviderUnavailable));
    assert!(next.is_empty());
}
