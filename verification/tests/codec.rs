use ellidri::buffer::{find_tag, tag_escape, tag_unescape, tags, MessageBuffer, TagBuffer};
use ellidri::message::{assert_msg, Command, Message};
use ellidri::text::{
    append_decimal, eq_fold, find, folded, list_add, list_contains, list_drop, parse_usize,
};

fn parse(line: &str) -> Message {
    Message::parse(line.as_bytes()).expect("a line that parses")
}

fn params(msg: &Message) -> Vec<String> {
    msg.params.iter().map(|p| String::from_utf8(p.clone()).unwrap()).collect()
}

#[test]
fn parse_reads_tags_prefix_command_and_params() {
    let msg = parse("@a=b;c :nick!user@host PRIVMSG #chan :hello there  world\r\n");
    assert_eq!(msg.tags, b"a=b;c".to_vec());
    assert_eq!(msg.prefix, Some(b"nick!user@host".to_vec()));
    assert_eq!(msg.command, Ok(Command::PrivMsg));
    assert_eq!(params(&msg), vec!["#chan", "hello there  world"]);
    assert_eq!(msg.num_params(), 2);
    assert_eq!(msg.param(1), b"hello there  world");
    assert_eq!(msg.param(2), b"");
    assert!(msg.has_enough_params());
}

#[test]
fn parse_takes_small_letters_and_many_spaces() {
    let msg = parse("   join    #a,#b   key  ");
    assert_eq!(msg.command, Ok(Command::Join));
    assert_eq!(params(&msg), vec!["#a,#b", "key"]);
    assert!(msg.tags.is_empty());
    assert_eq!(msg.prefix, None);
}

#[test]
fn parse_keeps_unknown_commands_and_reads_numerics() {
    let msg = parse("FOO bar");
    assert_eq!(msg.command, Err(b"FOO".to_vec()));
    assert!(msg.has_enough_params());
    let msg = parse(":elli.dri 001 ser :Welcome");
    assert_eq!(msg.command, Ok(Command::Reply(1)));
    let msg = parse("433 * ser :taken");
    assert_eq!(msg.command, Ok(Command::Reply(433)));
    assert_eq!(params(&msg), vec!["*", "ser", "taken"]);
}

#[test]
fn parse_refuses_empty_lines_and_forbidden_bytes() {
    assert!(Message::parse(b"").is_none());
    assert!(Message::parse(b"  \r\n").is_none());
    assert!(Message::parse(b"@tags").is_none());
    assert!(Message::parse(b":prefix").is_none());
    assert!(Message::parse(b"PING a\0b").is_none());
    assert!(Message::parse(b"PING a\rb").is_none());
    assert!(Message::parse(b"PING a\nPING b").is_none());
    assert!(Message::parse(b"PING a\n").is_some());
}

#[test]
fn parse_holds_fifteen_params_at_most() {
    let msg = parse("CMD 1 2 3 4 5 6 7 8 9 10 11 12 13 14 15 16 17");
    assert_eq!(msg.num_params(), 15);
    assert_eq!(msg.param(14), b"15");
    let msg = parse("USER a");
    assert!(!msg.has_enough_params());
    let msg = parse("USER a b c :d e");
    assert!(msg.has_enough_params());
    assert_eq!(msg.param(3), b"d e");
    let msg = parse("TOPIC #chan :");
    assert_eq!(params(&msg), vec!["#chan", ""]);
}

#[test]
fn assert_msg_compares_all_but_empty_expected_params() {
    let msg = parse(":elli.dri 353 ser = #room :@ser bob");
    let expected: [&[u8]; 4] = [b"ser", b"=", b"#room", b""];
    assert!(assert_msg(&msg, Some(b"elli.dri"), Ok(Command::Reply(353)), &expected));
    let wrong: [&[u8]; 4] = [b"ser", b"=", b"#other", b""];
    assert!(!assert_msg(&msg, Some(b"elli.dri"), Ok(Command::Reply(353)), &wrong));
    let short: [&[u8]; 3] = [b"ser", b"=", b"#room"];
    assert!(!assert_msg(&msg, Some(b"elli.dri"), Ok(Command::Reply(353)), &short));
    assert!(!assert_msg(&msg, None, Ok(Command::Reply(353)), &expected));
    assert!(!assert_msg(&msg, Some(b"elli.dri"), Ok(Command::Join), &expected));
    let foo = parse("FOO x");
    let one: [&[u8]; 1] = [b"x"];
    assert!(assert_msg(&foo, None, Err(b"FOO"), &one));
    assert!(!assert_msg(&foo, None, Err(b"BAR"), &one));
}

#[test]
fn built_lines_parse_back() {
    let line = MessageBuffer::command(b"nick!user@host", Command::Kick)
        .param(b"#room")
        .param(b"bob")
        .trailing_param(b"you are out")
        .build();
    assert_eq!(line.data, b":nick!user@host KICK #room bob :you are out\r\n".to_vec());
    assert_eq!(line.tags_len, 0);
    let msg = Message::parse(&line.data).unwrap();
    assert_eq!(msg.prefix, Some(b"nick!user@host".to_vec()));
    assert_eq!(msg.command, Ok(Command::Kick));
    assert_eq!(params(&msg), vec!["#room", "bob", "you are out"]);

    let line = MessageBuffer::command(b"", Command::Reply(7)).fmt_param(1234).build();
    assert_eq!(line.data, b"007 1234\r\n".to_vec());
    let msg = Message::parse(&line.data).unwrap();
    assert_eq!(msg.command, Ok(Command::Reply(7)));
    assert_eq!(msg.prefix, None);
}

#[test]
fn built_lines_are_cut_at_512_bytes() {
    let long = vec![b'x'; 600];
    let line = MessageBuffer::new(b"srv", b"PRIVMSG").param(b"#room").trailing_param(&long).build();
    assert_eq!(line.data.len(), 512);
    assert!(line.data.ends_with(b"x\r\n"));
    assert!(line.data.starts_with(b":srv PRIVMSG #room :xxx"));
    let line = MessageBuffer::new(b"srv", b"PRIVMSG").param(&long).param(b"lost").build();
    assert_eq!(line.data.len(), 512);
    assert!(!line.data.windows(4).any(|w| w == b"lost"));
    let line = MessageBuffer::new(b"", b"X").param(&vec![b'y'; 506]).trailing_param(b"z").build();
    assert_eq!(line.data.len(), 512);
    assert!(line.data.ends_with(b"y :\r\n"));
    let line = MessageBuffer::new(b"", b"X").param(&vec![b'y'; 507]).trailing_param(b"z").build();
    assert_eq!(line.data.len(), 511);
    assert!(line.data.ends_with(b"yy\r\n"));
}

#[test]
fn tags_keep_their_place_in_built_lines() {
    let msg = TagBuffer::new(b"+a=1;b=2;+c")
        .tag(b"msgid", Some(b"x y"))
        .tag(b"flag", None)
        .prefixed_command(b"nick", b"TAGMSG")
        .param(b"#room");
    let line = msg.build();
    assert_eq!(line.data, b"@+a=1;+c;msgid=x\\sy;flag :nick TAGMSG #room\r\n".to_vec());
    assert_eq!(&line.data[line.tags_len..], b":nick TAGMSG #room\r\n");
    let mut shown = Vec::new();
    line.render(false, &mut shown);
    assert_eq!(shown, b":nick TAGMSG #room\r\n".to_vec());
    let mut shown = Vec::new();
    line.render(true, &mut shown);
    assert_eq!(shown, line.data);

    let line = TagBuffer::new(b"a=1").prefixed_command(b"", b"PING").build();
    assert_eq!(line.data, b"PING\r\n".to_vec());
    assert_eq!(line.tags_len, 0);
}

#[test]
fn tag_values_are_escaped_and_unescaped() {
    assert_eq!(tag_unescape(b"a\\:b\\sc\\r\\n\\\\d"), b"a;b c\r\n\\d".to_vec());
    assert_eq!(tag_unescape(b"lone\\"), b"lone".to_vec());
    assert_eq!(tag_unescape(b"\\x\\y"), b"xy".to_vec());
    let mut out = Vec::new();
    tag_escape(&mut out, b"a;b c\r\n\\d");
    assert_eq!(out, b"a\\:b\\sc\\r\\n\\\\d".to_vec());
    let value = b"; \\ \r\n plain".to_vec();
    let mut escaped = Vec::new();
    tag_escape(&mut escaped, &value);
    assert_eq!(tag_unescape(&escaped), value);
}

#[test]
fn tags_are_listed_and_found() {
    let list = tags(b"a=1;;b;c=;label=x\\sy");
    let keys: Vec<Vec<u8>> = list.iter().map(|t| t.key.clone()).collect();
    assert_eq!(keys, vec![b"a".to_vec(), b"b".to_vec(), b"c".to_vec(), b"label".to_vec()]);
    assert_eq!(list[0].value, Some(b"1".to_vec()));
    assert_eq!(list[1].value, None);
    assert_eq!(list[2].value, Some(Vec::new()));
    assert_eq!(find_tag(b"a=1;label=x;label=y", b"label"), Some(b"x".to_vec()));
    assert_eq!(find_tag(b"a=1;label", b"label"), None);
    assert_eq!(find_tag(b"a=1", b"label"), None);
    assert!(tags(b"").is_empty());
}

#[test]
fn command_names_and_arity() {
    assert_eq!(Command::PrivMsg.name(), b"PRIVMSG".to_vec());
    assert_eq!(Command::Reply(5).name(), b"005".to_vec());
    assert_eq!(Command::Reply(433).name(), b"433".to_vec());
    assert_eq!(Command::parse(b"whois"), Ok(Command::Whois));
    assert_eq!(Command::parse(b"who"), Ok(Command::Who));
    assert_eq!(Command::parse(b"12"), Err(b"12".to_vec()));
    assert_eq!(Command::parse(b"0123"), Err(b"0123".to_vec()));
    assert_eq!(Command::User.required_params(), 4);
    assert_eq!(Command::Quit.required_params(), 0);
    assert_eq!(Command::Kick.required_params(), 2);
}

#[test]
fn every_command_is_read_by_its_name() {
    let all = [
        Command::Admin, Command::Authenticate, Command::Away, Command::Cap, Command::Info,
        Command::Invite, Command::Join, Command::Kick, Command::Kill, Command::List,
        Command::Lusers, Command::Mode, Command::Motd, Command::Names, Command::Nick,
        Command::Notice, Command::Oper, Command::Part, Command::Pass, Command::Ping,
        Command::Pong, Command::PrivMsg, Command::Quit, Command::Rehash, Command::SetName,
        Command::TagMsg, Command::Time, Command::Topic, Command::User, Command::Version,
        Command::Who, Command::Whois, Command::Reply(0), Command::Reply(999),
    ];
    for command in all {
        assert_eq!(Command::parse(&command.name()), Ok(command));
        let line = ellidri::wire::build(&Message {
            tags: Vec::new(),
            prefix: None,
            command: Ok(command),
            params: Vec::new(),
        });
        assert_eq!(Message::parse(&line.data).unwrap().command, Ok(command));
    }
}

#[test]
fn messages_are_read_back_as_they_were_built() {
    let messages = vec![
        Message {
            tags: b"+a=b;msgid=1".to_vec(),
            prefix: Some(b"nick!user@host".to_vec()),
            command: Ok(Command::PrivMsg),
            params: vec![b"#room".to_vec(), b":) hello  there".to_vec()],
        },
        Message { tags: Vec::new(), prefix: None, command: Err(b"FOO".to_vec()), params: vec![Vec::new()] },
        Message {
            tags: Vec::new(),
            prefix: Some(b"srv".to_vec()),
            command: Ok(Command::Reply(5)),
            params: (1..=15).map(|i| i.to_string().into_bytes()).collect(),
        },
    ];
    for message in messages {
        let line = ellidri::wire::build(&message);
        assert!(line.data.ends_with(b"\r\n"));
        let read = Message::parse(&line.data).unwrap();
        assert_eq!(read.tags, message.tags);
        assert_eq!(read.prefix, message.prefix);
        assert_eq!(read.command, message.command);
        assert_eq!(read.params, message.params);
    }
    let line = ellidri::wire::build(&Message {
        tags: b"t".to_vec(),
        prefix: Some(b"p".to_vec()),
        command: Ok(Command::Ping),
        params: vec![b"x".to_vec()],
    });
    assert_eq!(line.data, b"@t :p PING :x\r\n".to_vec());
    assert_eq!(line.tags_len, 3);
}

#[test]
fn text_helpers() {
    assert_eq!(folded(b"NiCk[]{}_19"), b"nick[]{}_19".to_vec());
    assert!(eq_fold(b"#Room", b"#rOOM"));
    assert!(!eq_fold(b"#Room", b"#Room2"));
    assert!(!eq_fold(b"[x]", b"{x}"));
    assert_eq!(find(b"a,b,c", 2, b','), 3);
    assert_eq!(find(b"abc", 0, b','), 3);
    let mut digits = Vec::new();
    append_decimal(&mut digits, 0);
    digits.push(b' ');
    append_decimal(&mut digits, 4094);
    assert_eq!(digits, b"0 4094".to_vec());
    assert_eq!(parse_usize(b"42"), Some(42));
    assert_eq!(parse_usize(b"+7"), Some(7));
    assert_eq!(parse_usize(b"007"), Some(7));
    assert_eq!(parse_usize(b""), None);
    assert_eq!(parse_usize(b"+"), None);
    assert_eq!(parse_usize(b"-1"), None);
    assert_eq!(parse_usize(b"12a"), None);
    assert_eq!(parse_usize(b"99999999999999999999999999"), None);
    assert_eq!(parse_usize(usize::MAX.to_string().as_bytes()), Some(usize::MAX));
    let mut list = Vec::new();
    assert!(list_add(&mut list, b"a"));
    assert!(list_add(&mut list, b"b"));
    assert!(!list_add(&mut list, b"a"));
    assert!(list_contains(&list, b"b"));
    assert!(list_drop(&mut list, b"a"));
    assert!(!list_drop(&mut list, b"a"));
    assert_eq!(list, vec![b"b".to_vec()]);
}
