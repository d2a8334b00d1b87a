use ellidri::channel::{Channel, Member, MemberModes, NickEntry, NickList, NickOf, NoNicks};
use ellidri::modes::{ChannelModeChange, ChannelQuery, Error, ModeKind, UserModeChange, UserQuery};
use ellidri::rpl;

fn names() -> NickList {
    NickList {
        entries: vec![
            NickEntry { id: 1, nick: b"ser".to_vec() },
            NickEntry { id: 2, nick: b"bob".to_vec() },
        ],
    }
}

fn records(modes: &str, params: &[&str]) -> Vec<Result<ChannelModeChange, Error>> {
    let params: Vec<Vec<u8>> = params.iter().map(|p| p.as_bytes().to_vec()).collect();
    ChannelQuery::collect(modes.as_bytes(), &params)
}

fn shape(record: &Result<ChannelModeChange, Error>) -> Result<(ModeKind, bool, Option<Vec<u8>>), Error> {
    match record {
        Ok(change) => Ok((change.kind(), change.value(), change.param().map(|p| p.to_vec()))),
        Err(e) => Err(*e),
    }
}

#[test]
fn user_modes_are_read_with_their_signs() {
    let all = UserQuery::collect(b"i-w+sx-");
    assert_eq!(
        all,
        vec![
            Ok(UserModeChange::Invisible(true)),
            Ok(UserModeChange::Wallops(false)),
            Ok(UserModeChange::ServerNotices(true)),
            Err(Error::UnknownMode(b'x')),
        ]
    );
    let mut query = UserQuery::new(b"+-+i");
    assert_eq!(query.next(), Some(Ok(UserModeChange::Invisible(true))));
    assert_eq!(query.next(), None);
    assert_eq!(query.next(), None);
    assert!(UserQuery::collect(b"+-").is_empty());
}

#[test]
fn channel_modes_take_their_params_in_order() {
    let all = records("+imk-l+l-o+v", &["key", "10", "ser", "bob"]);
    let shapes: Vec<_> = all.iter().map(shape).collect();
    assert_eq!(
        shapes,
        vec![
            Ok((ModeKind::InviteOnly, true, None)),
            Ok((ModeKind::Moderated, true, None)),
            Ok((ModeKind::Key, true, Some(b"key".to_vec()))),
            Ok((ModeKind::UserLimit, false, None)),
            Ok((ModeKind::UserLimit, true, Some(b"10".to_vec()))),
            Ok((ModeKind::ChangeOperator, false, Some(b"ser".to_vec()))),
            Ok((ModeKind::ChangeVoice, true, Some(b"bob".to_vec()))),
        ]
    );
    assert_eq!(all[0].as_ref().unwrap().symbol(), Some(b'i'));
    assert_eq!(all[2].as_ref().unwrap().symbol(), Some(b'k'));
    assert_eq!(all[6].as_ref().unwrap().symbol(), Some(b'v'));
}

#[test]
fn channel_mode_errors() {
    let all = records("+kz", &[]);
    assert_eq!(shape(&all[0]), Err(Error::MissingModeParam));
    assert_eq!(shape(&all[1]), Err(Error::UnknownMode(b'z')));
    let all = records("+l+l+o+v", &["many"]);
    assert_eq!(shape(&all[0]), Err(Error::BadModeParam));
    assert_eq!(shape(&all[1]), Err(Error::MissingModeParam));
    assert_eq!(shape(&all[2]), Err(Error::MissingModeParam));
    assert_eq!(shape(&all[3]), Err(Error::MissingModeParam));
}

#[test]
fn list_modes_without_a_param_ask_for_the_list() {
    let all = records("b+e-I+b", &["mask"]);
    let shapes: Vec<_> = all.iter().map(shape).collect();
    assert_eq!(
        shapes,
        vec![
            Ok((ModeKind::ChangeBan, true, Some(b"mask".to_vec()))),
            Ok((ModeKind::GetExceptions, false, None)),
            Ok((ModeKind::GetInvitations, false, None)),
            Ok((ModeKind::GetBans, false, None)),
        ]
    );
    assert_eq!(all[1].as_ref().unwrap().symbol(), None);
    assert!(!all[1].as_ref().unwrap().value());
    assert_eq!(all[1].as_ref().unwrap().param(), None);
    let mut query = ChannelQuery::simple(b"+b");
    assert_eq!(shape(&query.next().unwrap()), Ok((ModeKind::GetBans, false, None)));
    assert!(query.next().is_none());
}

#[test]
fn nicknames_come_from_a_list() {
    let list = names();
    assert!(list.nick_is(1, b"ser"));
    assert!(!list.nick_is(1, b"bob"));
    assert!(list.nick_is(3, b""));
    assert!(!list.nick_is(3, b"ser"));
    assert!(NoNicks.nick_is(1, b""));
    assert!(!NoNicks.nick_is(1, b"ser"));
}

#[test]
fn member_symbols() {
    let none = MemberModes::default();
    assert_eq!(none, MemberModes { creator: false, operator: false, voice: false });
    assert_eq!(none.symbol(), None);
    let voiced = MemberModes { creator: false, operator: false, voice: true };
    assert_eq!(voiced.symbol(), Some(b'+'));
    let both = MemberModes { creator: true, operator: true, voice: true };
    assert_eq!(both.symbol(), Some(b'@'));
    let mut all = Vec::new();
    both.all_symbols(&mut all);
    assert_eq!(all, b"@+".to_vec());
}

#[test]
fn new_channel_takes_the_default_modes() {
    let chan = Channel::new(b"+nt-n+sk");
    assert!(chan.topic_restricted && chan.secret && !chan.no_privmsg_from_outside);
    assert!(chan.key.is_none());
    assert!(chan.members.is_empty());
    assert_eq!(chan.symbol(), b'@');
    assert_eq!(Channel::new(b"").symbol(), b'=');
}

#[test]
fn first_member_is_creator_and_operator() {
    let mut chan = Channel::new(b"+n");
    chan.add_member(1);
    chan.add_member(2);
    assert_eq!(
        chan.members,
        vec![
            Member { id: 1, modes: MemberModes { creator: true, operator: true, voice: false } },
            Member { id: 2, modes: MemberModes::default() },
        ]
    );
    assert!(chan.has_member(2) && !chan.has_member(3));
    assert_eq!(chan.find_member(2), 1);
    assert_eq!(chan.find_member(3), 2);
    chan.remove_member(1);
    chan.remove_member(7);
    assert_eq!(chan.members.len(), 1);
    assert!(!chan.members[0].modes.creator);
    assert_eq!(chan.member_modes(1), None);
    assert_eq!(chan.member_modes(2), Some(MemberModes::default()));
}

#[test]
fn applying_a_change_twice_changes_nothing_more() {
    let mut chan = Channel::new(b"");
    chan.add_member(1);
    chan.add_member(2);
    let changes = vec![
        ChannelModeChange::Moderated(true),
        ChannelModeChange::Secret(true),
        ChannelModeChange::UserLimit(Some(b"5".to_vec())),
        ChannelModeChange::ChangeBan(true, b"bad".to_vec()),
        ChannelModeChange::ChangeBan(false, b"bad".to_vec()),
        ChannelModeChange::ChangeVoice(true, b"bob".to_vec()),
        ChannelModeChange::ChangeOperator(false, b"ser".to_vec()),
        ChannelModeChange::UserLimit(None),
    ];
    for change in &changes {
        assert_eq!(chan.apply_mode_change(change, &names()), Ok(true));
        assert_eq!(chan.apply_mode_change(change, &names()), Ok(false));
    }
    assert!(chan.moderated && chan.secret);
    assert!(chan.members[1].modes.voice && !chan.members[1].modes.operator);
    assert!(!chan.members[0].modes.operator && chan.members[0].modes.creator);
    assert!(chan.ban_mask.is_empty());
}

#[test]
fn key_is_set_once_and_unset_by_itself() {
    let mut chan = Channel::new(b"");
    let set = ChannelModeChange::Key(true, b"one".to_vec());
    assert_eq!(chan.apply_mode_change(&set, &NoNicks), Ok(true));
    assert_eq!(chan.apply_mode_change(&set, &NoNicks), Err(rpl::ERR_KEYSET));
    assert_eq!(chan.key, Some(b"one".to_vec()));
    let wrong = ChannelModeChange::Key(false, b"two".to_vec());
    assert_eq!(chan.apply_mode_change(&wrong, &NoNicks), Ok(false));
    assert_eq!(chan.key, Some(b"one".to_vec()));
    let unset = ChannelModeChange::Key(false, b"one".to_vec());
    assert_eq!(chan.apply_mode_change(&unset, &NoNicks), Ok(true));
    assert_eq!(chan.apply_mode_change(&unset, &NoNicks), Ok(false));
    assert_eq!(chan.key, None);
}

#[test]
fn changes_that_are_refused_or_do_nothing() {
    let mut chan = Channel::new(b"");
    chan.add_member(1);
    let op = ChannelModeChange::ChangeOperator(true, b"bob".to_vec());
    assert_eq!(chan.apply_mode_change(&op, &names()), Err(rpl::ERR_USERNOTINCHANNEL));
    let voice = ChannelModeChange::ChangeVoice(true, b"nobody".to_vec());
    assert_eq!(chan.apply_mode_change(&voice, &names()), Err(rpl::ERR_USERNOTINCHANNEL));
    let bad = ChannelModeChange::UserLimit(Some(b"lots".to_vec()));
    assert_eq!(chan.apply_mode_change(&bad, &names()), Ok(false));
    assert_eq!(chan.user_limit, None);
    assert_eq!(chan.apply_mode_change(&ChannelModeChange::GetBans, &names()), Ok(false));
    assert_eq!(chan.apply_mode_change(&ChannelModeChange::Private(true), &names()), Ok(false));
    let same = ChannelModeChange::ChangeOperator(true, b"ser".to_vec());
    assert_eq!(chan.apply_mode_change(&same, &names()), Ok(false));
}

#[test]
fn bans_invitations_and_talking() {
    let mut chan = Channel::new(b"+n");
    chan.add_member(1);
    chan.add_member(2);
    assert!(chan.is_invited(b"anyone"));
    assert!(!chan.is_banned(b"bob"));
    let _ = chan.apply_mode_change(&ChannelModeChange::ChangeBan(true, b"bob".to_vec()), &NoNicks);
    assert!(chan.is_banned(b"bob"));
    let _ = chan.apply_mode_change(&ChannelModeChange::ChangeException(true, b"bob".to_vec()), &NoNicks);
    assert!(!chan.is_banned(b"bob"));
    let _ = chan.apply_mode_change(&ChannelModeChange::ChangeException(false, b"bob".to_vec()), &NoNicks);
    let _ = chan.apply_mode_change(&ChannelModeChange::ChangeInvitation(true, b"bob".to_vec()), &NoNicks);
    assert!(!chan.is_banned(b"bob"));
    let _ = chan.apply_mode_change(&ChannelModeChange::InviteOnly(true), &NoNicks);
    assert!(chan.is_invited(b"bob") && !chan.is_invited(b"carl"));

    assert!(chan.can_talk(1) && chan.can_talk(2) && !chan.can_talk(3));
    let _ = chan.apply_mode_change(&ChannelModeChange::NoPrivMsgFromOutside(false), &NoNicks);
    assert!(chan.can_talk(3));
    let _ = chan.apply_mode_change(&ChannelModeChange::Moderated(true), &NoNicks);
    assert!(chan.can_talk(1) && !chan.can_talk(2) && !chan.can_talk(3));
}
