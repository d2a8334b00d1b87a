use ellidri::auth::{DbProvider, DummyProvider, Plain, Provider};
use ellidri::message::{Command, Message};
use ellidri::state::{points_of, Config, Delivery, Env, StateInner};

const HOST: &str = "127.0.0.1";

fn config() -> Config {
    Config {
        domain: b"elli.dri".to_vec(),
        org_name: b"org".to_vec(),
        org_location: b"somewhere".to_vec(),
        org_mail: b"admin@elli.dri".to_vec(),
        motd_file: Vec::new(),
        password: None,
        default_chan_mode: b"+n".to_vec(),
        opers: vec![(b"root".to_vec(), b"toor".to_vec())],
        awaylen: 300,
        channellen: 50,
        kicklen: 300,
        namelen: 64,
        nicklen: 9,
        topiclen: 300,
        userlen: 64,
        login_timeout: 60_000,
    }
}

fn env() -> Env {
    Env { now: 1_000, time: b"2020-01-01T00:00:00.000Z".to_vec(), msgid: b"abc123".to_vec() }
}

fn state() -> StateInner<DummyProvider> {
    StateInner::new(config(), DummyProvider, b"some day".to_vec())
}

struct Store;

impl Plain for Store {
    fn ready(&self) -> bool {
        true
    }

    fn plain(&self, user: &[u8], pass: &[u8]) -> Result<(), ()> {
        if user == b"alice" && pass == b"secret" {
            Ok(())
        } else {
            Err(())
        }
    }
}

fn send<P: Provider>(state: &mut StateInner<P>, id: usize, line: &str) -> (Result<u32, ()>, Vec<Delivery>) {
    let msg = Message::parse(line.as_bytes()).expect("a line that parses");
    let mut out = Vec::new();
    let r = state.handle_message(id, &msg, &env(), &mut out);
    (r, out)
}

fn lines_to(out: &[Delivery], id: usize) -> Vec<String> {
    let mut all = Vec::new();
    for delivery in out {
        if delivery.to == id {
            let text = String::from_utf8(delivery.data.clone()).unwrap();
            for line in text.split("\r\n") {
                if !line.is_empty() {
                    all.push(line.to_string());
                }
            }
        }
    }
    all
}

fn connect<P: Provider>(state: &mut StateInner<P>) -> usize {
    state.peer_joined(HOST.as_bytes().to_vec(), 0)
}

fn register<P: Provider>(state: &mut StateInner<P>, nick: &str) -> usize {
    let id = connect(state);
    let _ = send(state, id, &format!("NICK {}", nick));
    let _ = send(state, id, &format!("USER {} 0 * :{}", nick, nick));
    id
}

#[test]
fn welcome_is_the_first_line_after_registration() {
    let mut s = state();
    let a = connect(&mut s);
    let (r, out) = send(&mut s, a, "NICK ser\r\n");
    assert_eq!(r, Ok(4));
    assert!(lines_to(&out, a).is_empty());
    let (r, out) = send(&mut s, a, "USER ser 0 * :ser\r\n");
    assert_eq!(r, Ok(1));
    let lines = lines_to(&out, a);
    assert_eq!(lines[0], ":elli.dri 001 ser :Welcome home, ser!~ser@127.0.0.1");
    assert!(lines[1].starts_with(":elli.dri 002 ser :Your host is elli.dri"));
    assert!(lines.iter().any(|l| l.starts_with(":elli.dri 005 ser CASEMAPPING=ascii")));
    assert!(lines.iter().any(|l| l.contains("NICKLEN=9")));
    assert_eq!(lines.last().unwrap(), ":elli.dri 422 ser :MOTD file is missing");
}

#[test]
fn welcome_uses_the_nickname_given_last() {
    let mut s = state();
    let a = connect(&mut s);
    let (_, out) = send(&mut s, a, "USER ser 0 * :ser");
    assert!(lines_to(&out, a).is_empty());
    let (_, out) = send(&mut s, a, "NICK ser");
    assert_eq!(lines_to(&out, a)[0], ":elli.dri 001 ser :Welcome home, ser!~ser@127.0.0.1");
}

#[test]
fn join_is_broadcast_to_members() {
    let mut s = state();
    let a = register(&mut s, "ser");
    let b = register(&mut s, "bob");
    let (r, out) = send(&mut s, a, "JOIN #room");
    assert_eq!(r, Ok(4));
    let to_a = lines_to(&out, a);
    assert_eq!(to_a[0], ":ser!~ser@127.0.0.1 JOIN #room");
    assert_eq!(to_a[1], ":elli.dri 353 ser = #room :@ser");
    assert_eq!(to_a[2], ":elli.dri 366 ser #room :End of NAMES list");
    assert!(lines_to(&out, b).is_empty());

    let (_, out) = send(&mut s, b, "JOIN #room");
    assert_eq!(lines_to(&out, a), vec![":bob!~bob@127.0.0.1 JOIN #room".to_string()]);
    let to_b = lines_to(&out, b);
    assert_eq!(to_b[0], ":bob!~bob@127.0.0.1 JOIN #room");
    assert_eq!(to_b[1], ":elli.dri 353 bob = #room :@ser bob");
    assert!(!to_b.iter().any(|l| l.starts_with(":ser!")));
}

#[test]
fn nick_collision_is_refused() {
    let mut s = state();
    let _a = register(&mut s, "ser");
    let b = connect(&mut s);
    let (r, out) = send(&mut s, b, "NICK ser");
    assert_eq!(r, Ok(8));
    assert_eq!(lines_to(&out, b), vec![":elli.dri 433 * ser :Nickname is already in use".to_string()]);
}

#[test]
fn nicknames_collide_whatever_their_case() {
    let mut s = state();
    let a = register(&mut s, "ser");
    let b = connect(&mut s);
    let (_, out) = send(&mut s, b, "NICK SER");
    assert_eq!(lines_to(&out, b), vec![":elli.dri 433 * SER :Nickname is already in use".to_string()]);
    assert_eq!(s.nicks.get(b"ser"), Some(a));
    assert_eq!(s.nicks.entries.len(), 1);
}

#[test]
fn mode_is_told_once() {
    let mut s = state();
    let a = register(&mut s, "ser");
    let _ = send(&mut s, a, "JOIN #room");
    let (r, out) = send(&mut s, a, "MODE #room +m");
    assert_eq!(r, Ok(2));
    assert_eq!(lines_to(&out, a), vec![":ser!~ser@127.0.0.1 MODE #room +m".to_string()]);
    assert!(s.channels[0].chan.moderated);
    let (r, out) = send(&mut s, a, "MODE #room +m");
    assert_eq!(r, Ok(2));
    assert!(lines_to(&out, a).is_empty());
    assert!(s.channels[0].chan.moderated);
}

#[test]
fn mode_changes_are_collapsed_into_one_line() {
    let mut s = state();
    let a = register(&mut s, "ser");
    let b = register(&mut s, "bob");
    let _ = send(&mut s, a, "JOIN #room");
    let _ = send(&mut s, b, "JOIN #room");
    let (_, out) = send(&mut s, a, "MODE #room +mk-n+v secret bob");
    let expect = ":ser!~ser@127.0.0.1 MODE #room +mk-n+v secret bob".to_string();
    assert_eq!(lines_to(&out, a), vec![expect.clone()]);
    assert_eq!(lines_to(&out, b), vec![expect]);
    let chan = &s.channels[0].chan;
    assert_eq!(chan.key, Some(b"secret".to_vec()));
    assert!(!chan.no_privmsg_from_outside);
    assert!(chan.members[1].modes.voice);
    assert!(!chan.members[1].modes.operator);
}

#[test]
fn sasl_plain_succeeds() {
    let mut s = StateInner::new(config(), DbProvider::new(Store), b"some day".to_vec());
    let a = connect(&mut s);
    let (r, out) = send(&mut s, a, "CAP REQ :sasl");
    assert_eq!(r, Ok(1));
    assert_eq!(lines_to(&out, a), vec![":elli.dri CAP * ACK :sasl".to_string()]);
    let (r, out) = send(&mut s, a, "AUTHENTICATE PLAIN");
    assert_eq!(r, Ok(6));
    assert_eq!(lines_to(&out, a), vec![":elli.dri AUTHENTICATE +".to_string()]);
    let response = base64::encode(b"\0alice\0secret");
    let (r, out) = send(&mut s, a, &format!("AUTHENTICATE {}", response));
    assert_eq!(r, Ok(6));
    let lines = lines_to(&out, a);
    assert_eq!(lines.len(), 2);
    assert!(lines[0].starts_with(":elli.dri 900 * "));
    assert!(lines[0].ends_with(" alice :You are now logged in as alice"));
    assert_eq!(lines[1], ":elli.dri 903 * :SASL authentication successful");
    assert_eq!(s.get(a).unwrap().identity, Some(b"alice".to_vec()));

    let (_, out) = send(&mut s, a, "CAP END");
    assert!(lines_to(&out, a).is_empty());
    let _ = send(&mut s, a, "NICK alice");
    let (_, out) = send(&mut s, a, "USER alice 0 * :Alice");
    assert_eq!(lines_to(&out, a)[0], ":elli.dri 001 alice :Welcome home, alice!~alice@127.0.0.1");
}

#[test]
fn sasl_plain_refuses_a_wrong_password() {
    let mut s = StateInner::new(config(), DbProvider::new(Store), b"some day".to_vec());
    let a = connect(&mut s);
    let _ = send(&mut s, a, "CAP REQ :sasl");
    let _ = send(&mut s, a, "AUTHENTICATE PLAIN");
    let response = base64::encode(b"\0alice\0wrong");
    let (r, out) = send(&mut s, a, &format!("AUTHENTICATE {}", response));
    assert_eq!(r, Ok(12));
    assert_eq!(lines_to(&out, a), vec![":elli.dri 904 * :SASL authentication failed".to_string()]);
    assert_eq!(s.get(a).unwrap().identity, None);
    assert_eq!(s.get(a).unwrap().auth_id, None);
}

#[test]
fn sasl_refuses_what_is_no_base64() {
    let mut s = StateInner::new(config(), DbProvider::new(Store), b"some day".to_vec());
    let a = connect(&mut s);
    let _ = send(&mut s, a, "CAP REQ :sasl");
    let _ = send(&mut s, a, "AUTHENTICATE PLAIN");
    let (r, out) = send(&mut s, a, "AUTHENTICATE !!!!");
    assert_eq!(r, Ok(12));
    assert_eq!(lines_to(&out, a), vec![":elli.dri 904 * :SASL authentication failed".to_string()]);
}

#[test]
fn sasl_unknown_mechanism_lists_the_known_ones() {
    let mut s = StateInner::new(config(), DbProvider::new(Store), b"some day".to_vec());
    let a = connect(&mut s);
    let _ = send(&mut s, a, "CAP REQ :sasl");
    let (r, out) = send(&mut s, a, "AUTHENTICATE EXTERNAL");
    assert_eq!(r, Ok(12));
    assert_eq!(
        lines_to(&out, a),
        vec![":elli.dri 908 * PLAIN :are available SASL mechanisms".to_string()]
    );
}

#[test]
fn sasl_with_the_dummy_provider_fails() {
    let mut s = state();
    let a = connect(&mut s);
    let _ = send(&mut s, a, "CAP REQ :sasl");
    let (r, out) = send(&mut s, a, "AUTHENTICATE PLAIN");
    assert_eq!(r, Ok(12));
    assert_eq!(lines_to(&out, a), vec![":elli.dri 904 * :SASL authentication failed".to_string()]);
}

#[test]
fn sasl_abort_and_too_long() {
    let mut s = StateInner::new(config(), DbProvider::new(Store), b"some day".to_vec());
    let a = connect(&mut s);
    let _ = send(&mut s, a, "CAP REQ :sasl");
    let _ = send(&mut s, a, "AUTHENTICATE PLAIN");
    let (r, out) = send(&mut s, a, "AUTHENTICATE *");
    assert_eq!(r, Ok(6));
    assert_eq!(lines_to(&out, a), vec![":elli.dri 906 * :SASL authentication aborted".to_string()]);
    assert_eq!(s.get(a).unwrap().auth_id, None);

    let _ = send(&mut s, a, "AUTHENTICATE PLAIN");
    let chunk = "A".repeat(400);
    let (r, out) = send(&mut s, a, &format!("AUTHENTICATE {}", chunk));
    assert_eq!(r, Ok(6));
    assert!(lines_to(&out, a).is_empty());
    let _ = send(&mut s, a, &format!("AUTHENTICATE {}", chunk));
    let (r, out) = send(&mut s, a, &format!("AUTHENTICATE {}", chunk));
    assert_eq!(r, Ok(12));
    assert_eq!(lines_to(&out, a), vec![":elli.dri 905 * :SASL message too long".to_string()]);
}

#[test]
fn account_is_told_to_those_who_asked() {
    let mut s = StateInner::new(config(), DbProvider::new(Store), b"some day".to_vec());
    let a = register(&mut s, "ser");
    let b = register(&mut s, "bob");
    let c = register(&mut s, "carl");
    let _ = send(&mut s, b, "CAP REQ :account-notify");
    let _ = send(&mut s, a, "JOIN #room");
    let _ = send(&mut s, b, "JOIN #room");
    let _ = send(&mut s, c, "JOIN #room");
    let _ = send(&mut s, a, "CAP REQ :sasl");
    let _ = send(&mut s, a, "AUTHENTICATE PLAIN");
    let response = base64::encode(b"\0alice\0secret");
    let (_, out) = send(&mut s, a, &format!("AUTHENTICATE {}", response));
    assert_eq!(lines_to(&out, b), vec![":ser!~ser@127.0.0.1 ACCOUNT alice".to_string()]);
    assert!(lines_to(&out, c).is_empty());
    let (r, out) = send(&mut s, a, "AUTHENTICATE PLAIN");
    assert_eq!(r, Ok(12));
    assert_eq!(
        lines_to(&out, a),
        vec![":elli.dri 907 ser :You have already authenticated using SASL".to_string()]
    );
}

#[test]
fn quit_is_told_once_to_each_peer() {
    let mut s = state();
    let a = register(&mut s, "aaa");
    let b = register(&mut s, "bbb");
    let c = register(&mut s, "ccc");
    for id in [a, b, c] {
        let _ = send(&mut s, id, "JOIN #room,#lobby");
    }
    let _ = send(&mut s, a, "JOIN #solo");
    assert_eq!(s.channels.len(), 3);

    let (r, out) = send(&mut s, a, "QUIT :bye");
    assert_eq!(r, Err(()));
    assert_eq!(lines_to(&out, b), vec![":aaa!~aaa@127.0.0.1 QUIT :bye".to_string()]);
    assert_eq!(lines_to(&out, c), vec![":aaa!~aaa@127.0.0.1 QUIT :bye".to_string()]);
    assert_eq!(lines_to(&out, a), vec!["ERROR :bye".to_string()]);

    assert_eq!(s.channels.len(), 2);
    for entry in &s.channels {
        let ids: Vec<usize> = entry.chan.members.iter().map(|m| m.id).collect();
        assert_eq!(ids, vec![b, c]);
    }
    assert!(!s.contains(a));
    assert_eq!(s.nicks.get(b"aaa"), None);
    assert_eq!(s.channel_position(b"#solo"), s.channels.len());
}

#[test]
fn peer_quit_with_and_without_an_error() {
    let mut s = state();
    let a = register(&mut s, "aaa");
    let b = register(&mut s, "bbb");
    let _ = send(&mut s, a, "JOIN #room");
    let _ = send(&mut s, b, "JOIN #room");
    let mut out = Vec::new();
    s.peer_quit(a, &mut out, Some(b"Connection reset by peer"));
    assert_eq!(
        lines_to(&out, b),
        vec![":aaa!~aaa@127.0.0.1 QUIT :Connection reset by peer".to_string()]
    );
    assert_eq!(lines_to(&out, a), vec!["ERROR :Connection reset by peer".to_string()]);
    let mut out = Vec::new();
    s.peer_quit(a, &mut out, None);
    assert!(out.is_empty());
    let mut out = Vec::new();
    s.peer_quit(b, &mut out, None);
    assert_eq!(lines_to(&out, b), vec!["ERROR :Closing link".to_string()]);
    assert!(s.channels.is_empty());
}

#[test]
fn identifiers_are_dense_and_given_again() {
    let mut s = state();
    let a = connect(&mut s);
    let b = connect(&mut s);
    assert_eq!((a, b), (0, 1));
    assert!(s.contains(a) && s.contains(b) && !s.contains(2));
    assert!(s.remove_if_unregistered(a));
    assert!(!s.contains(a));
    let c = connect(&mut s);
    assert_eq!(c, 0);
    assert_eq!(s.get(c).unwrap().host, HOST.as_bytes().to_vec());
    assert!(s.get(7).is_none());
}

#[test]
fn remove_if_unregistered_keeps_registered_clients() {
    let mut s = state();
    let a = register(&mut s, "ser");
    let b = connect(&mut s);
    let _ = send(&mut s, b, "NICK bob");
    assert!(!s.remove_if_unregistered(a));
    assert!(s.contains(a));
    assert!(s.remove_if_unregistered(b));
    assert!(!s.contains(b));
    assert_eq!(s.nicks.get(b"bob"), None);
    assert!(!s.remove_if_unregistered(b));
}

#[test]
fn a_message_of_no_client_is_an_error() {
    let mut s = state();
    let (r, out) = send(&mut s, 3, "NICK ser");
    assert_eq!(r, Err(()));
    assert!(out.is_empty());
}

#[test]
fn tags_of_4094_bytes_are_taken_and_of_4095_refused() {
    let mut s = state();
    let a = register(&mut s, "ser");
    let tags = "a".repeat(4094);
    let (r, out) = send(&mut s, a, &format!("@{} PING x", tags));
    assert_eq!(r, Ok(1));
    assert_eq!(lines_to(&out, a), vec![":elli.dri PONG elli.dri :x".to_string()]);
    let tags = "a".repeat(4095);
    let (r, out) = send(&mut s, a, &format!("@{} PING x", tags));
    assert_eq!(r, Ok(3));
    assert_eq!(lines_to(&out, a), vec![":elli.dri 417 ser :Input line was too long".to_string()]);
}

#[test]
fn nickname_of_the_longest_length_is_taken() {
    let mut s = state();
    let a = connect(&mut s);
    let (r, out) = send(&mut s, a, "NICK abcdefghij");
    assert_eq!(r, Ok(8));
    assert_eq!(lines_to(&out, a), vec![":elli.dri 432 * abcdefghij :Erroneous nickname".to_string()]);
    let (r, out) = send(&mut s, a, "NICK abcdefghi");
    assert_eq!(r, Ok(4));
    assert!(out.is_empty());
    assert_eq!(s.get(a).unwrap().nick, b"abcdefghi".to_vec());
}

#[test]
fn channel_names_start_with_a_hash_or_an_ampersand() {
    let mut s = state();
    let a = register(&mut s, "ser");
    let (_, out) = send(&mut s, a, "JOIN room");
    assert_eq!(lines_to(&out, a), vec![":elli.dri 403 ser room :No such channel".to_string()]);
    assert!(s.channels.is_empty());
    let _ = send(&mut s, a, "JOIN &local");
    assert_eq!(s.channels.len(), 1);
    assert_eq!(s.channels[0].key, b"&local".to_vec());
}

#[test]
fn invite_only_channel_keeps_the_uninvited_out() {
    let mut s = state();
    let a = register(&mut s, "ser");
    let b = register(&mut s, "bob");
    let _ = send(&mut s, a, "JOIN #room");
    let _ = send(&mut s, a, "MODE #room +i");
    let (_, out) = send(&mut s, b, "JOIN #room");
    assert_eq!(
        lines_to(&out, b),
        vec![":elli.dri 473 bob #room :Cannot join channel (+i)".to_string()]
    );
    assert_eq!(s.channels[0].chan.members.len(), 1);

    let (_, out) = send(&mut s, a, "INVITE bob #room");
    assert_eq!(lines_to(&out, a), vec![":elli.dri 341 ser bob #room".to_string()]);
    assert_eq!(lines_to(&out, b), vec![":ser!~ser@127.0.0.1 INVITE bob #room".to_string()]);
    let (_, out) = send(&mut s, b, "JOIN #room");
    assert_eq!(lines_to(&out, b)[0], ":bob!~bob@127.0.0.1 JOIN #room");
    assert_eq!(s.channels[0].chan.members.len(), 2);
}

#[test]
fn join_is_refused_by_limit_key_and_ban() {
    let mut s = state();
    let a = register(&mut s, "ser");
    let b = register(&mut s, "bob");
    let _ = send(&mut s, a, "JOIN #full,#key,#ban");
    let _ = send(&mut s, a, "MODE #full +l 1");
    let _ = send(&mut s, a, "MODE #key +k secret");
    let _ = send(&mut s, a, "MODE #ban +b bob");
    let (r, out) = send(&mut s, b, "JOIN #full,#key,#ban,#key wrong,,,secret");
    assert_eq!(r, Ok(4));
    let lines = lines_to(&out, b);
    assert_eq!(lines[0], ":bob!~bob@127.0.0.1 JOIN #key");
    assert_eq!(lines[1], ":elli.dri 471 bob #full :Cannot join channel (+l)");
    assert_eq!(lines[2], ":elli.dri 475 bob #key :Cannot join channel (+k)");
    assert_eq!(lines[3], ":elli.dri 474 bob #ban :Cannot join channel (+b)");
    assert_eq!(lines[4], ":elli.dri 353 bob = #key :@ser bob");
    let _ = send(&mut s, a, "MODE #ban +e bob");
    let (_, out) = send(&mut s, b, "JOIN #ban");
    assert_eq!(lines_to(&out, b)[0], ":bob!~bob@127.0.0.1 JOIN #ban");
}

#[test]
fn part_drops_the_empty_channel() {
    let mut s = state();
    let a = register(&mut s, "ser");
    let b = register(&mut s, "bob");
    let _ = send(&mut s, a, "JOIN #room");
    let _ = send(&mut s, b, "JOIN #room");
    let (_, out) = send(&mut s, a, "PART #room :so long");
    assert_eq!(lines_to(&out, a), vec![":ser!~ser@127.0.0.1 PART #room :so long".to_string()]);
    assert_eq!(lines_to(&out, b), vec![":ser!~ser@127.0.0.1 PART #room :so long".to_string()]);
    assert_eq!(s.channels.len(), 1);
    let (_, out) = send(&mut s, a, "PART #room");
    assert_eq!(
        lines_to(&out, a),
        vec![":elli.dri 442 ser #room :You're not on that channel".to_string()]
    );
    let (_, out) = send(&mut s, b, "PART #room");
    assert_eq!(lines_to(&out, b), vec![":bob!~bob@127.0.0.1 PART #room".to_string()]);
    assert!(s.channels.is_empty());
    let (_, out) = send(&mut s, b, "PART #room");
    assert_eq!(lines_to(&out, b), vec![":elli.dri 403 bob #room :No such channel".to_string()]);
}

#[test]
fn kick_needs_an_operator() {
    let mut s = state();
    let a = register(&mut s, "ser");
    let b = register(&mut s, "bob");
    let _ = send(&mut s, a, "JOIN #room");
    let _ = send(&mut s, b, "JOIN #room");
    let (r, out) = send(&mut s, b, "KICK #room ser :out");
    assert_eq!(r, Ok(4));
    assert_eq!(
        lines_to(&out, b),
        vec![":elli.dri 482 bob #room :You are not channel operator".to_string()]
    );
    let (_, out) = send(&mut s, a, "KICK #room carl :out");
    assert_eq!(
        lines_to(&out, a),
        vec![":elli.dri 441 ser carl #room :They aren't on that channel".to_string()]
    );
    let (r, out) = send(&mut s, a, "KICK #room bob :out");
    assert_eq!(r, Ok(2));
    assert_eq!(lines_to(&out, b), vec![":ser!~ser@127.0.0.1 KICK #room bob :out".to_string()]);
    assert_eq!(s.channels[0].chan.members.len(), 1);
}

#[test]
fn topic_is_set_shown_and_restricted() {
    let mut s = state();
    let a = register(&mut s, "ser");
    let b = register(&mut s, "bob");
    let _ = send(&mut s, a, "JOIN #room");
    let _ = send(&mut s, b, "JOIN #room");
    let (_, out) = send(&mut s, b, "TOPIC #room");
    assert_eq!(lines_to(&out, b), vec![":elli.dri 331 bob #room :No topic is set".to_string()]);
    let (_, out) = send(&mut s, b, "TOPIC #room :hello there");
    assert_eq!(lines_to(&out, a), vec![":bob!~bob@127.0.0.1 TOPIC #room :hello there".to_string()]);
    let (_, out) = send(&mut s, a, "TOPIC #room");
    assert_eq!(
        lines_to(&out, a),
        vec![
            ":elli.dri 332 ser #room :hello there".to_string(),
            ":elli.dri 333 ser #room bob 1000".to_string(),
        ]
    );
    let _ = send(&mut s, a, "MODE #room +t");
    let (r, out) = send(&mut s, b, "TOPIC #room :mine");
    assert_eq!(r, Ok(6));
    assert_eq!(
        lines_to(&out, b),
        vec![":elli.dri 482 bob #room :You are not channel operator".to_string()]
    );
    let _ = send(&mut s, a, "TOPIC #room :");
    assert!(s.channels[0].chan.topic.is_none());
}

#[test]
fn topic_key_and_limit_are_independent_and_lists_may_overlap() {
    let mut s = state();
    let a = register(&mut s, "ser");
    let _ = send(&mut s, a, "JOIN #room");
    let _ = send(&mut s, a, "MODE #room +k key");
    assert!(s.channels[0].chan.key.is_some());
    assert!(s.channels[0].chan.topic.is_none() && s.channels[0].chan.user_limit.is_none());
    let _ = send(&mut s, a, "MODE #room -k key");
    let _ = send(&mut s, a, "MODE #room +l 5");
    assert_eq!(s.channels[0].chan.user_limit, Some(5));
    assert!(s.channels[0].chan.key.is_none());
    let _ = send(&mut s, a, "TOPIC #room :t");
    assert!(s.channels[0].chan.topic.is_some());
    let _ = send(&mut s, a, "MODE #room -l");
    assert!(s.channels[0].chan.user_limit.is_none() && s.channels[0].chan.topic.is_some());
    let _ = send(&mut s, a, "MODE #room +beI x x x");
    let chan = &s.channels[0].chan;
    assert_eq!(chan.ban_mask, vec![b"x".to_vec()]);
    assert_eq!(chan.exception_mask, vec![b"x".to_vec()]);
    assert_eq!(chan.invitation_mask, vec![b"x".to_vec()]);
}

#[test]
fn mode_lists_and_errors() {
    let mut s = state();
    let a = register(&mut s, "ser");
    let _ = send(&mut s, a, "JOIN #room");
    let _ = send(&mut s, a, "MODE #room +b bad");
    let (_, out) = send(&mut s, a, "MODE #room b");
    assert_eq!(
        lines_to(&out, a),
        vec![
            ":elli.dri 367 ser #room bad".to_string(),
            ":elli.dri 368 ser #room :End of ban list".to_string(),
        ]
    );
    let (_, out) = send(&mut s, a, "MODE #room +z");
    assert_eq!(lines_to(&out, a), vec![":elli.dri 472 ser z :is unknown mode char to me".to_string()]);
    let (_, out) = send(&mut s, a, "MODE #room +k");
    assert_eq!(lines_to(&out, a), vec![":elli.dri 461 ser MODE :Not enough parameters".to_string()]);
    let _ = send(&mut s, a, "MODE #room +k one");
    let (_, out) = send(&mut s, a, "MODE #room +k two");
    assert_eq!(lines_to(&out, a), vec![":elli.dri 467 ser #room :Channel key already set".to_string()]);
    let (_, out) = send(&mut s, a, "MODE #room +o nobody");
    assert_eq!(
        lines_to(&out, a),
        vec![":elli.dri 441 ser nobody #room :They aren't on that channel".to_string()]
    );
    let (_, out) = send(&mut s, a, "MODE #room");
    assert_eq!(lines_to(&out, a), vec![":elli.dri 324 ser #room +nk one".to_string()]);
}

#[test]
fn user_modes() {
    let mut s = state();
    let a = register(&mut s, "ser");
    let _b = register(&mut s, "bob");
    let (_, out) = send(&mut s, a, "MODE ser +iw-i");
    assert_eq!(lines_to(&out, a), vec![":elli.dri 221 ser +w".to_string()]);
    assert!(s.get(a).unwrap().wallops && !s.get(a).unwrap().invisible);
    let (r, out) = send(&mut s, a, "MODE bob +i");
    assert_eq!(r, Ok(4));
    assert_eq!(
        lines_to(&out, a),
        vec![":elli.dri 502 ser :Cannot change mode for other users".to_string()]
    );
    let (_, out) = send(&mut s, a, "MODE ser +x");
    assert_eq!(lines_to(&out, a)[0], ":elli.dri 501 ser :Unknown MODE flag");
}

#[test]
fn privmsg_to_a_channel_and_to_a_client() {
    let mut s = state();
    let a = register(&mut s, "ser");
    let b = register(&mut s, "bob");
    let c = register(&mut s, "carl");
    let _ = send(&mut s, a, "JOIN #room");
    let _ = send(&mut s, b, "JOIN #room");
    let (r, out) = send(&mut s, a, "PRIVMSG #room :hello all");
    assert_eq!(r, Ok(4));
    assert_eq!(lines_to(&out, b), vec![":ser!~ser@127.0.0.1 PRIVMSG #room :hello all".to_string()]);
    assert!(lines_to(&out, a).is_empty());
    assert!(lines_to(&out, c).is_empty());

    let (r, out) = send(&mut s, c, "PRIVMSG #room :from outside");
    assert_eq!(r, Ok(8));
    assert_eq!(lines_to(&out, c), vec![":elli.dri 404 carl #room :Cannot send to channel".to_string()]);

    let _ = send(&mut s, b, "AWAY :gone fishing");
    let (_, out) = send(&mut s, a, "PRIVMSG bob :psst");
    assert_eq!(lines_to(&out, b), vec![":ser!~ser@127.0.0.1 PRIVMSG bob :psst".to_string()]);
    assert_eq!(lines_to(&out, a), vec![":elli.dri 301 ser bob :gone fishing".to_string()]);
    assert_eq!(s.get(a).unwrap().last_action_time, 1_000);

    let (_, out) = send(&mut s, a, "PRIVMSG nobody :psst");
    assert_eq!(lines_to(&out, a), vec![":elli.dri 401 ser nobody :No such nick/channel".to_string()]);
    let (_, out) = send(&mut s, a, "PRIVMSG bob :");
    assert_eq!(lines_to(&out, a), vec![":elli.dri 412 ser :Not enough parameters".to_string()]);
    let (_, out) = send(&mut s, a, "PRIVMSG #nowhere :x");
    assert_eq!(lines_to(&out, a), vec![":elli.dri 403 ser #nowhere :No such channel".to_string()]);
}

#[test]
fn moderated_channel_lets_voiced_members_speak() {
    let mut s = state();
    let a = register(&mut s, "ser");
    let b = register(&mut s, "bob");
    let _ = send(&mut s, a, "JOIN #room");
    let _ = send(&mut s, b, "JOIN #room");
    let _ = send(&mut s, a, "MODE #room +m");
    let (r, _) = send(&mut s, b, "PRIVMSG #room :hi");
    assert_eq!(r, Ok(8));
    let _ = send(&mut s, a, "MODE #room +v bob");
    let (r, out) = send(&mut s, b, "PRIVMSG #room :hi");
    assert_eq!(r, Ok(4));
    assert_eq!(lines_to(&out, a), vec![":bob!~bob@127.0.0.1 PRIVMSG #room :hi".to_string()]);
}

#[test]
fn tags_are_sent_to_those_who_take_them() {
    let mut s = state();
    let a = register(&mut s, "ser");
    let b = register(&mut s, "bob");
    let c = register(&mut s, "carl");
    let _ = send(&mut s, a, "CAP REQ :message-tags echo-message");
    let _ = send(&mut s, b, "CAP REQ :message-tags");
    for id in [a, b, c] {
        let _ = send(&mut s, id, "JOIN #room");
    }
    let (_, out) = send(&mut s, a, "@+react=yes;other=no PRIVMSG #room :hi");
    let tagged =
        "@+react=yes;msgid=abc123;time=2020-01-01T00:00:00.000Z :ser!~ser@127.0.0.1 PRIVMSG #room :hi";
    assert_eq!(lines_to(&out, b), vec![tagged.to_string()]);
    assert_eq!(lines_to(&out, c), vec![":ser!~ser@127.0.0.1 PRIVMSG #room :hi".to_string()]);
    assert_eq!(lines_to(&out, a), vec![tagged.to_string()]);

    let (_, out) = send(&mut s, a, "@+typing=active TAGMSG #room");
    assert_eq!(
        lines_to(&out, b),
        vec![
            "@+typing=active;msgid=abc123;time=2020-01-01T00:00:00.000Z :ser!~ser@127.0.0.1 TAGMSG #room"
                .to_string()
        ]
    );
    assert!(lines_to(&out, c).is_empty());
    let (r, out) = send(&mut s, c, "TAGMSG #room");
    assert_eq!(r, Ok(2));
    assert_eq!(lines_to(&out, c), vec![":elli.dri 421 carl TAGMSG :Unknown command".to_string()]);
}

#[test]
fn labeled_responses_are_batched() {
    let mut s = state();
    let a = register(&mut s, "ser");
    let _ = send(&mut s, a, "CAP REQ :labeled-response");
    let (_, out) = send(&mut s, a, "@label=x1 PING hi");
    assert_eq!(
        lines_to(&out, a),
        vec![
            "@label=x1 :elli.dri BATCH +abc123 labeled-response".to_string(),
            "@batch=abc123 :elli.dri PONG elli.dri :hi".to_string(),
            ":elli.dri BATCH -abc123".to_string(),
        ]
    );
    let (_, out) = send(&mut s, a, "@label=x2 PONG hi");
    assert_eq!(lines_to(&out, a), vec!["@label=x2 :elli.dri ACK".to_string()]);
    let (_, out) = send(&mut s, a, "PING hi");
    assert_eq!(lines_to(&out, a), vec![":elli.dri PONG elli.dri :hi".to_string()]);
}

#[test]
fn refusals_before_the_handlers() {
    let mut s = state();
    let a = connect(&mut s);
    let (r, out) = send(&mut s, a, "FOO bar");
    assert_eq!(r, Ok(1));
    assert_eq!(lines_to(&out, a), vec![":elli.dri 451 * :You have not registered".to_string()]);
    let (r, out) = send(&mut s, a, "JOIN #room");
    assert_eq!(r, Ok(2));
    assert_eq!(lines_to(&out, a), vec![":elli.dri 451 * :You have not registered".to_string()]);
    let (r, out) = send(&mut s, a, "NICK");
    assert_eq!(r, Ok(1));
    assert_eq!(lines_to(&out, a), vec![":elli.dri 431 * :Not enough parameters".to_string()]);
    let (r, out) = send(&mut s, a, "AUTHENTICATE PLAIN");
    assert_eq!(r, Ok(2));
    assert_eq!(lines_to(&out, a), vec![":elli.dri 451 * :You have not registered".to_string()]);

    let b = register(&mut s, "bob");
    let (r, out) = send(&mut s, b, "FOO bar");
    assert_eq!(r, Ok(1));
    assert_eq!(lines_to(&out, b), vec![":elli.dri 421 bob FOO :Unknown command".to_string()]);
    let (r, out) = send(&mut s, b, "USER bob 0 * :bob");
    assert_eq!(r, Ok(2));
    assert_eq!(lines_to(&out, b), vec![":elli.dri 462 bob :You are already registered".to_string()]);
    let (_, out) = send(&mut s, b, "PASS x");
    assert_eq!(lines_to(&out, b), vec![":elli.dri 462 bob :You are already registered".to_string()]);
    let (_, out) = send(&mut s, b, "PRIVMSG");
    assert_eq!(lines_to(&out, b), vec![":elli.dri 411 bob :Not enough parameters".to_string()]);
    let (_, out) = send(&mut s, b, "PRIVMSG ser");
    assert_eq!(lines_to(&out, b), vec![":elli.dri 412 bob :Not enough parameters".to_string()]);
    let (_, out) = send(&mut s, b, "KICK #room");
    assert_eq!(lines_to(&out, b), vec![":elli.dri 461 bob KICK :Not enough parameters".to_string()]);
    let (r, out) = send(&mut s, b, "SETNAME :Bobby");
    assert_eq!(r, Ok(2));
    assert_eq!(lines_to(&out, b), vec![":elli.dri 421 bob SETNAME :Unknown command".to_string()]);
}

#[test]
fn password_is_asked_for_where_configured() {
    let mut cfg = config();
    cfg.password = Some(b"sesame".to_vec());
    let mut s = StateInner::new(cfg, DummyProvider, b"some day".to_vec());
    let a = connect(&mut s);
    let _ = send(&mut s, a, "NICK ser");
    let (_, out) = send(&mut s, a, "USER ser 0 * :ser");
    assert!(out.is_empty());
    assert!(!s.get(a).unwrap().is_registered());
    let (r, out) = send(&mut s, a, "PASS wrong");
    assert_eq!(r, Ok(4));
    assert_eq!(lines_to(&out, a), vec![":elli.dri 464 ser :Password incorrect".to_string()]);
    let (r, out) = send(&mut s, a, "PASS sesame");
    assert_eq!(r, Ok(2));
    assert_eq!(lines_to(&out, a)[0], ":elli.dri 001 ser :Welcome home, ser!~ser@127.0.0.1");
    assert!(s.get(a).unwrap().is_registered());
}

#[test]
fn capability_negotiation_holds_registration_back() {
    let mut s = state();
    let a = connect(&mut s);
    let (_, out) = send(&mut s, a, "CAP LS 302");
    let lines = lines_to(&out, a);
    assert_eq!(
        lines,
        vec![":elli.dri CAP * LS :account-notify away-notify batch cap-notify echo-message invite-notify labeled-response message-tags multi-prefix server-time setname userhost-in-names".to_string()]
    );
    let _ = send(&mut s, a, "NICK ser");
    let (_, out) = send(&mut s, a, "USER ser 0 * :ser");
    assert!(out.is_empty());
    let (r, out) = send(&mut s, a, "CAP REQ :multi-prefix nonsense");
    assert_eq!(r, Ok(2));
    assert_eq!(lines_to(&out, a), vec![":elli.dri CAP ser NAK :multi-prefix nonsense".to_string()]);
    assert!(!s.get(a).unwrap().capabilities.multi_prefix);
    let (_, out) = send(&mut s, a, "CAP REQ :multi-prefix setname");
    assert_eq!(lines_to(&out, a), vec![":elli.dri CAP ser ACK :multi-prefix setname".to_string()]);
    assert!(s.get(a).unwrap().capabilities.multi_prefix);
    let (_, out) = send(&mut s, a, "CAP REQ :-multi-prefix");
    assert_eq!(lines_to(&out, a), vec![":elli.dri CAP ser ACK :-multi-prefix".to_string()]);
    assert!(!s.get(a).unwrap().capabilities.multi_prefix);
    let (_, out) = send(&mut s, a, "CAP LIST");
    assert_eq!(lines_to(&out, a), vec![":elli.dri CAP ser LIST :setname ".to_string()]);
    let (r, out) = send(&mut s, a, "CAP BOGUS");
    assert_eq!(r, Ok(2));
    assert_eq!(lines_to(&out, a), vec![":elli.dri 410 ser BOGUS :Unknown command".to_string()]);
    let (_, out) = send(&mut s, a, "CAP END");
    assert_eq!(lines_to(&out, a)[0], ":elli.dri 001 ser :Welcome home, ser!~ser@127.0.0.1");
}

#[test]
fn sasl_is_listed_with_its_mechanisms() {
    let mut s = StateInner::new(config(), DbProvider::new(Store), b"some day".to_vec());
    let a = connect(&mut s);
    let (_, out) = send(&mut s, a, "CAP LS 302");
    assert!(lines_to(&out, a)[0].ends_with("userhost-in-names sasl=PLAIN"));
    let b = connect(&mut s);
    let (_, out) = send(&mut s, b, "CAP LS");
    assert!(lines_to(&out, b)[0].ends_with("userhost-in-names sasl"));
}

#[test]
fn nick_change_is_told_to_peers() {
    let mut s = state();
    let a = register(&mut s, "ser");
    let b = register(&mut s, "bob");
    let _ = send(&mut s, a, "JOIN #room");
    let _ = send(&mut s, b, "JOIN #room");
    let (_, out) = send(&mut s, a, "NICK sir");
    assert_eq!(lines_to(&out, b), vec![":ser!~ser@127.0.0.1 NICK sir".to_string()]);
    assert_eq!(lines_to(&out, a), vec![":ser!~ser@127.0.0.1 NICK sir".to_string()]);
    assert_eq!(s.nicks.get(b"sir"), Some(a));
    assert_eq!(s.nicks.get(b"ser"), None);
    let (_, out) = send(&mut s, b, "NICK ser");
    assert_eq!(lines_to(&out, a), vec![":bob!~bob@127.0.0.1 NICK ser".to_string()]);
}

#[test]
fn setname_is_told_to_those_who_know_it() {
    let mut s = state();
    let a = register(&mut s, "ser");
    let b = register(&mut s, "bob");
    let c = register(&mut s, "carl");
    let _ = send(&mut s, a, "CAP REQ :setname");
    let _ = send(&mut s, b, "CAP REQ :setname");
    for id in [a, b, c] {
        let _ = send(&mut s, id, "JOIN #room");
    }
    let (r, out) = send(&mut s, a, "SETNAME :Sir Ser");
    assert_eq!(r, Ok(4));
    assert_eq!(lines_to(&out, a), vec![":ser!~ser@127.0.0.1 SETNAME :Sir Ser".to_string()]);
    assert_eq!(lines_to(&out, b), vec![":ser!~ser@127.0.0.1 SETNAME :Sir Ser".to_string()]);
    assert_eq!(s.get(a).unwrap().real, b"Sir Ser".to_vec());
    assert_eq!(lines_to(&out, b).len(), 1);
    assert!(lines_to(&out, c).is_empty());
    let long = "x".repeat(65);
    let (r, out) = send(&mut s, a, &format!("SETNAME :{}", long));
    assert_eq!(r, Ok(8));
    assert_eq!(
        lines_to(&out, a),
        vec![":elli.dri FAIL SETNAME INVALID_REALNAME :Realname is not valid".to_string()]
    );
}

#[test]
fn oper_kill_and_rehash() {
    let mut s = state();
    let a = register(&mut s, "ser");
    let b = register(&mut s, "bob");
    let (r, out) = send(&mut s, a, "REHASH");
    assert_eq!(r, Ok(2));
    assert_eq!(
        lines_to(&out, a),
        vec![":elli.dri 481 ser :Permission denied- You're not an IRC operator".to_string()]
    );
    assert!(!s.rehash_requested);
    let (r, out) = send(&mut s, a, "OPER root wrong");
    assert_eq!(r, Ok(12));
    assert_eq!(lines_to(&out, a), vec![":elli.dri 464 ser :Password incorrect".to_string()]);
    let (r, out) = send(&mut s, a, "OPER root toor");
    assert_eq!(r, Ok(6));
    assert_eq!(lines_to(&out, a), vec![":elli.dri 381 ser :You are now an IRC operator".to_string()]);
    let (_, out) = send(&mut s, a, "REHASH");
    assert_eq!(lines_to(&out, a), vec![":elli.dri 382 ser :Rehashing".to_string()]);
    assert!(s.rehash_requested);
    let (r, out) = send(&mut s, b, "KILL ser :no");
    assert_eq!(r, Ok(4));
    assert_eq!(lines_to(&out, b).len(), 1);
    let (r, out) = send(&mut s, a, "KILL bob :enough");
    assert_eq!(r, Ok(2));
    assert_eq!(lines_to(&out, b), vec!["ERROR :enough".to_string()]);
    assert!(!s.contains(b));
}

#[test]
fn rehash_keeps_the_clients() {
    let mut s = state();
    let a = register(&mut s, "ser");
    let _ = send(&mut s, a, "JOIN #room");
    let mut cfg = config();
    cfg.domain = b"new.dri".to_vec();
    cfg.motd_file = b"line one\r\nline two".to_vec();
    cfg.nicklen = 3;
    s.rehash(cfg, DummyProvider);
    assert!(s.contains(a));
    assert_eq!(s.channels.len(), 1);
    assert_eq!(s.nicklen, 9);
    let (_, out) = send(&mut s, a, "MOTD");
    assert_eq!(
        lines_to(&out, a),
        vec![
            ":new.dri 375 ser :- Message of the day - new.dri".to_string(),
            ":new.dri 372 ser :- line one".to_string(),
            ":new.dri 372 ser :- line two".to_string(),
            ":new.dri 376 ser :End of MOTD".to_string(),
        ]
    );
}

#[test]
fn queries_answer() {
    let mut s = state();
    let a = register(&mut s, "ser");
    let b = register(&mut s, "bob");
    let _ = send(&mut s, a, "JOIN #room");
    let _ = send(&mut s, b, "JOIN #room");
    let _ = send(&mut s, a, "JOIN #hidden");
    let _ = send(&mut s, a, "MODE #hidden +s");
    let (_, out) = send(&mut s, b, "LIST");
    assert_eq!(
        lines_to(&out, b),
        vec![
            ":elli.dri 322 bob #room 2 :".to_string(),
            ":elli.dri 323 bob :End of LIST".to_string(),
        ]
    );
    let (_, out) = send(&mut s, a, "LIST #hidden");
    assert_eq!(lines_to(&out, a)[0], ":elli.dri 322 ser #hidden 1 :");
    let (_, out) = send(&mut s, b, "NAMES #hidden,#room");
    assert_eq!(
        lines_to(&out, b),
        vec![
            ":elli.dri 353 bob = #room :@ser bob".to_string(),
            ":elli.dri 366 bob #room :End of NAMES list".to_string(),
        ]
    );
    let (_, out) = send(&mut s, a, "NAMES #hidden");
    assert_eq!(lines_to(&out, a)[0], ":elli.dri 353 ser @ #hidden :@ser");
    let (_, out) = send(&mut s, b, "WHO #room");
    assert_eq!(
        lines_to(&out, b),
        vec![
            ":elli.dri 352 bob #room ser 127.0.0.1 elli.dri ser H@ :0 ser".to_string(),
            ":elli.dri 352 bob #room bob 127.0.0.1 elli.dri bob H :0 bob".to_string(),
            ":elli.dri 315 bob #room :End of WHO list".to_string(),
        ]
    );
    let (_, out) = send(&mut s, b, "WHOIS ser");
    let lines = lines_to(&out, b);
    assert_eq!(lines[0], ":elli.dri 311 bob ser ser 127.0.0.1 * :ser");
    assert_eq!(lines[2], ":elli.dri 317 bob ser 1000 0 :seconds idle, signon time");
    assert_eq!(lines.last().unwrap(), ":elli.dri 318 bob ser :End of WHOIS");
    let (r, out) = send(&mut s, b, "WHOIS nobody");
    assert_eq!(r, Ok(6));
    assert_eq!(lines_to(&out, b), vec![":elli.dri 401 bob nobody :No such nick/channel".to_string()]);
    let (_, out) = send(&mut s, b, "LUSERS");
    let lines = lines_to(&out, b);
    assert_eq!(lines[0], ":elli.dri 251 bob :There are 2 users and 0 services on 1 servers");
    assert_eq!(lines[1], ":elli.dri 254 bob 1 :channels formed");
    assert_eq!(lines[2], ":elli.dri 255 bob :I have 2 clients and 0 servers");
    let (_, out) = send(&mut s, b, "ADMIN");
    assert_eq!(lines_to(&out, b).len(), 4);
    let (_, out) = send(&mut s, b, "TIME");
    assert_eq!(lines_to(&out, b), vec![":elli.dri 391 bob elli.dri :2020-01-01T00:00:00.000Z".to_string()]);
    let (_, out) = send(&mut s, b, "VERSION");
    assert_eq!(lines_to(&out, b).len(), 1);
    let (_, out) = send(&mut s, b, "INFO");
    assert_eq!(lines_to(&out, b).len(), 2);
}

#[test]
fn points_of_each_command() {
    assert_eq!(points_of(Command::Admin), 1);
    assert_eq!(points_of(Command::Join), 4);
    assert_eq!(points_of(Command::List), 6);
    assert_eq!(points_of(Command::PrivMsg), 4);
    assert_eq!(points_of(Command::Authenticate), 6);
    assert_eq!(points_of(Command::Topic), 3);
    assert_eq!(points_of(Command::Reply(1)), 1);
}

struct Challenger;

impl Provider for Challenger {
    fn is_available(&self) -> bool {
        true
    }

    fn write_mechanisms(&self, buf: &mut Vec<u8>) {
        buf.extend_from_slice(b"TWOSTEP");
    }

    fn start_auth(&self, mechanism: &[u8], next: &mut Vec<u8>) -> Result<usize, ellidri::auth::Error> {
        if mechanism == b"TWOSTEP" {
            next.extend_from_slice(b"who are you");
            Ok(7)
        } else {
            Err(ellidri::auth::Error::UnsupportedMechanism)
        }
    }

    fn next_challenge(
        &self,
        auth: usize,
        response: &[u8],
        next: &mut Vec<u8>,
    ) -> Result<Option<Vec<u8>>, ellidri::auth::Error> {
        assert_eq!(auth, 7);
        if response == b"me" {
            next.extend_from_slice(b"prove it");
            Ok(None)
        } else if response == b"proof" {
            Ok(Some(b"me".to_vec()))
        } else {
            Err(ellidri::auth::Error::InvalidCredentials)
        }
    }
}

#[test]
fn sasl_exchange_with_challenges() {
    let mut s = StateInner::new(config(), Challenger, b"some day".to_vec());
    let a = connect(&mut s);
    let _ = send(&mut s, a, "CAP REQ :sasl");
    let (r, out) = send(&mut s, a, "AUTHENTICATE TWOSTEP");
    assert_eq!(r, Ok(6));
    assert_eq!(
        lines_to(&out, a),
        vec![format!(":elli.dri AUTHENTICATE {}", base64::encode(b"who are you"))]
    );
    assert_eq!(s.get(a).unwrap().auth_id, Some(7));
    let (r, out) = send(&mut s, a, &format!("AUTHENTICATE {}", base64::encode(b"me")));
    assert_eq!(r, Ok(6));
    assert_eq!(
        lines_to(&out, a),
        vec![format!(":elli.dri AUTHENTICATE {}", base64::encode(b"prove it"))]
    );
    assert_eq!(s.get(a).unwrap().auth_id, Some(7));
    let (r, out) = send(&mut s, a, &format!("AUTHENTICATE {}", base64::encode(b"proof")));
    assert_eq!(r, Ok(6));
    assert_eq!(lines_to(&out, a).len(), 2);
    assert_eq!(s.get(a).unwrap().identity, Some(b"me".to_vec()));
    assert_eq!(s.get(a).unwrap().auth_id, None);
}

#[test]
fn sasl_blocks_registration_while_it_is_under_way() {
    let mut s = StateInner::new(config(), Challenger, b"some day".to_vec());
    let a = connect(&mut s);
    let _ = send(&mut s, a, "CAP REQ :sasl");
    let _ = send(&mut s, a, "AUTHENTICATE TWOSTEP");
    let _ = send(&mut s, a, "CAP END");
    let _ = send(&mut s, a, "NICK ser");
    let (_, out) = send(&mut s, a, "USER ser 0 * :ser");
    assert!(out.is_empty());
    assert!(!s.get(a).unwrap().is_registered());
    let _ = send(&mut s, a, &format!("AUTHENTICATE {}", base64::encode(b"me")));
    assert!(!s.get(a).unwrap().is_registered());
    let (_, out) = send(&mut s, a, &format!("AUTHENTICATE {}", base64::encode(b"proof")));
    let lines = lines_to(&out, a);
    assert!(lines[0].starts_with(":elli.dri 900 ser "));
    assert_eq!(lines[2], ":elli.dri 001 ser :Welcome home, ser!~ser@127.0.0.1");
    assert!(s.get(a).unwrap().is_registered());
}

#[test]
fn names_with_all_prefixes_and_hosts() {
    let mut s = state();
    let a = register(&mut s, "ser");
    let b = register(&mut s, "bob");
    let _ = send(&mut s, a, "JOIN #room");
    let _ = send(&mut s, b, "JOIN #room");
    let _ = send(&mut s, a, "MODE #room +v ser");
    let _ = send(&mut s, b, "CAP REQ :multi-prefix userhost-in-names");
    let (_, out) = send(&mut s, b, "NAMES #room");
    assert_eq!(
        lines_to(&out, b)[0],
        ":elli.dri 353 bob = #room :@+ser!~ser@127.0.0.1 bob!~bob@127.0.0.1"
    );
    let (_, out) = send(&mut s, a, "NAMES #room");
    assert_eq!(lines_to(&out, a)[0], ":elli.dri 353 ser = #room :@ser bob");
    let (_, out) = send(&mut s, a, "NAMES");
    assert_eq!(lines_to(&out, a), vec![":elli.dri 366 ser * :End of NAMES list".to_string()]);
    let (_, out) = send(&mut s, a, "NAMES #nowhere");
    assert!(lines_to(&out, a).is_empty());
}

#[test]
fn who_hides_secret_channels_and_finds_nicknames() {
    let mut s = state();
    let a = register(&mut s, "ser");
    let b = register(&mut s, "bob");
    let _ = send(&mut s, a, "JOIN #hidden");
    let _ = send(&mut s, a, "MODE #hidden +s");
    let _ = send(&mut s, a, "AWAY :off");
    let _ = send(&mut s, a, "OPER root toor");
    let (_, out) = send(&mut s, b, "WHO #hidden");
    assert_eq!(lines_to(&out, b), vec![":elli.dri 315 bob #hidden :End of WHO list".to_string()]);
    let (_, out) = send(&mut s, b, "WHO ser");
    assert_eq!(
        lines_to(&out, b),
        vec![
            ":elli.dri 352 bob * ser 127.0.0.1 elli.dri ser G* :0 ser".to_string(),
            ":elli.dri 315 bob ser :End of WHO list".to_string(),
        ]
    );
    let (_, out) = send(&mut s, b, "WHOIS ser");
    let lines = lines_to(&out, b);
    assert_eq!(lines[2], ":elli.dri 313 bob ser :is an IRC operator");
    assert_eq!(lines[4], ":elli.dri 301 bob ser :off");
    let (_, out) = send(&mut s, b, "LIST #hidden,#nowhere");
    assert_eq!(lines_to(&out, b), vec![":elli.dri 323 bob :End of LIST".to_string()]);
    let (_, out) = send(&mut s, b, "LUSERS");
    let lines = lines_to(&out, b);
    assert_eq!(lines[1], ":elli.dri 252 bob 1 :operator(s) online");
    assert_eq!(lines[2], ":elli.dri 254 bob 0 :channels formed");
    let c = connect(&mut s);
    let (_, out) = send(&mut s, b, "LUSERS");
    assert_eq!(lines_to(&out, b)[2], ":elli.dri 253 bob 1 :unknown connection(s)");
    assert!(s.contains(c));
}

#[test]
fn away_comes_and_goes() {
    let mut s = state();
    let a = register(&mut s, "ser");
    let (r, out) = send(&mut s, a, "AWAY :gone");
    assert_eq!(r, Ok(4));
    assert_eq!(
        lines_to(&out, a),
        vec![":elli.dri 306 ser :You have been marked as being away".to_string()]
    );
    assert_eq!(s.get(a).unwrap().away_message, Some(b"gone".to_vec()));
    let (_, out) = send(&mut s, a, "AWAY");
    assert_eq!(
        lines_to(&out, a),
        vec![":elli.dri 305 ser :You are no longer marked as being away".to_string()]
    );
    assert_eq!(s.get(a).unwrap().away_message, None);
}

#[test]
fn user_needs_a_name_and_a_real_name() {
    let mut s = state();
    let a = connect(&mut s);
    let (r, out) = send(&mut s, a, "USER ser 0 * :");
    assert_eq!(r, Ok(2));
    assert_eq!(lines_to(&out, a), vec![":elli.dri 461 * USER :Not enough parameters".to_string()]);
    let long = "u".repeat(70);
    let (r, _) = send(&mut s, a, &format!("USER {} 0 * :Real Name", long));
    assert_eq!(r, Ok(1));
    assert_eq!(s.get(a).unwrap().user.len(), 64);
    assert_eq!(s.get(a).unwrap().real, b"Real Name".to_vec());
}

#[test]
fn part_leaves_each_channel_of_a_list() {
    let mut s = state();
    let a = register(&mut s, "ser");
    let b = register(&mut s, "bob");
    let _ = send(&mut s, a, "JOIN #one,#two");
    let _ = send(&mut s, b, "JOIN #two");
    let (r, out) = send(&mut s, a, "PART #one,,#none,#two :bye");
    assert_eq!(r, Ok(points_of(Command::Part)));
    assert_eq!(
        lines_to(&out, a),
        vec![
            ":ser!~ser@127.0.0.1 PART #one :bye".to_string(),
            ":ser!~ser@127.0.0.1 PART #two :bye".to_string(),
            ":elli.dri 403 ser #none :No such channel".to_string(),
        ]
    );
    assert_eq!(lines_to(&out, b), vec![":ser!~ser@127.0.0.1 PART #two :bye".to_string()]);
    assert_eq!(s.channels.len(), 1);
}
