//! Channels: their members, their modes and their lists.

use vstd::prelude::*;
use crate::modes::{ChangeView, ChannelModeChange, ChannelQuery, Error, ModeKind, channel_changes, records_view};
use crate::buffer::MessageBuffer;
use crate::rpl;
use crate::text::{
    distinct, eq, first_where, lemma_first_where, lemma_first_where_is, list_add, list_contains,
    list_drop, list_insert, list_remove, number, parse_usize, to_vec, views,
};

verus! {

/// The modes that a client has on one channel.
#[derive(Clone, Copy, Debug, PartialEq, Eq, Structural)]
pub struct MemberModes {
    pub creator: bool,
    pub operator: bool,
    pub voice: bool,
}

impl Default for MemberModes {
    fn default() -> (r: MemberModes)
        ensures
            r == (MemberModes { creator: false, operator: false, voice: false }),
    {
        MemberModes { creator: false, operator: false, voice: false }
    }
}

pub const SYMBOL_OPERATOR: u8 = 0x40;
pub const SYMBOL_VOICE: u8 = 0x2b;
pub const SYMBOL_SECRET: u8 = 0x40;
pub const SYMBOL_PUBLIC: u8 = 0x3d;

impl MemberModes {
    /// The sign shown before the nickname of a member: `@` for an
    /// operator, else `+` for a voiced member, else none.
    pub fn symbol(&self) -> (r: Option<u8>)
        ensures
            r == (if self.operator {
                Some(SYMBOL_OPERATOR)
            } else if self.voice {
                Some(SYMBOL_VOICE)
            } else {
                None
            }),
    {
        if self.operator {
            Some(SYMBOL_OPERATOR)
        } else if self.voice {
            Some(SYMBOL_VOICE)
        } else {
            None
        }
    }

    /// All the signs of a member, the highest first.
    pub open spec fn symbols(self) -> Seq<u8> {
        (if self.operator {
            seq![SYMBOL_OPERATOR]
        } else {
            seq![]
        }) + (if self.voice {
            seq![SYMBOL_VOICE]
        } else {
            seq![]
        })
    }

    /// Appends all the signs of a member to `dst`.
    pub fn all_symbols(&self, dst: &mut Vec<u8>)
        ensures
            final(dst)@ == old(dst)@ + self.symbols(),
    {
        if self.operator {
            dst.push(SYMBOL_OPERATOR);
        }
        if self.voice {
            dst.push(SYMBOL_VOICE);
        }
        assert(dst@ =~= old(dst)@ + self.symbols());
    }
}

/// One member of a channel.
#[derive(Clone, Copy, Debug, PartialEq, Eq, Structural)]
pub struct Member {
    pub id: usize,
    pub modes: MemberModes,
}

/// The topic of a channel, with who set it and when.
pub struct Topic {
    pub content: Vec<u8>,
    pub who: Vec<u8>,
    pub time: u64,
}

pub struct TopicView {
    pub content: Seq<u8>,
    pub who: Seq<u8>,
    pub time: u64,
}

impl View for Topic {
    type V = TopicView;

    open spec fn view(&self) -> TopicView {
        TopicView { content: self.content@, who: self.who@, time: self.time }
    }
}

/// A channel.
pub struct Channel {
    /// The members in the order in which they joined.
    pub members: Vec<Member>,
    pub topic: Option<Topic>,
    pub user_limit: Option<usize>,
    pub key: Option<Vec<u8>>,
    pub ban_mask: Vec<Vec<u8>>,
    pub exception_mask: Vec<Vec<u8>>,
    pub invitation_mask: Vec<Vec<u8>>,
    pub anonymous: bool,
    pub invite_only: bool,
    pub moderated: bool,
    pub no_privmsg_from_outside: bool,
    pub quiet: bool,
    pub secret: bool,
    pub reop: bool,
    pub topic_restricted: bool,
}

/// What a channel holds.
pub struct ChannelView {
    pub members: Seq<Member>,
    pub topic: Option<TopicView>,
    pub user_limit: Option<usize>,
    pub key: Option<Seq<u8>>,
    pub ban_mask: Seq<Seq<u8>>,
    pub exception_mask: Seq<Seq<u8>>,
    pub invitation_mask: Seq<Seq<u8>>,
    pub anonymous: bool,
    pub invite_only: bool,
    pub moderated: bool,
    pub no_privmsg_from_outside: bool,
    pub quiet: bool,
    pub secret: bool,
    pub reop: bool,
    pub topic_restricted: bool,
}

impl View for Channel {
    type V = ChannelView;

    open spec fn view(&self) -> ChannelView {
        ChannelView {
            members: self.members@,
            topic: match self.topic {
                Some(t) => Some(t@),
                None => None,
            },
            user_limit: self.user_limit,
            key: match self.key {
                Some(k) => Some(k@),
                None => None,
            },
            ban_mask: views(self.ban_mask@),
            exception_mask: views(self.exception_mask@),
            invitation_mask: views(self.invitation_mask@),
            anonymous: self.anonymous,
            invite_only: self.invite_only,
            moderated: self.moderated,
            no_privmsg_from_outside: self.no_privmsg_from_outside,
            quiet: self.quiet,
            secret: self.secret,
            reop: self.reop,
            topic_restricted: self.topic_restricted,
        }
    }
}

/// A channel without members, modes, topic or lists.
pub open spec fn empty_channel() -> ChannelView {
    ChannelView {
        members: seq![],
        topic: None,
        user_limit: None,
        key: None,
        ban_mask: seq![],
        exception_mask: seq![],
        invitation_mask: seq![],
        anonymous: false,
        invite_only: false,
        moderated: false,
        no_privmsg_from_outside: false,
        quiet: false,
        secret: false,
        reop: false,
        topic_restricted: false,
    }
}

/// Whether no client stands twice among the members.
pub open spec fn distinct_members(members: Seq<Member>) -> bool {
    forall|i: int, j: int| 0 <= i < j < members.len() ==> members[i].id != members[j].id
}

/// The place of the client `id` among the members, or their number where
/// it is no member.
pub open spec fn member_index(members: Seq<Member>, id: usize) -> int {
    first_where(members, has_id(id))
}

/// The test that a member is the client `id`.
pub open spec fn has_id(id: usize) -> spec_fn(Member) -> bool {
    |m: Member| m.id == id
}

/// The test that the nickname of a member is `name`.
pub open spec fn has_nick<N: NickOf>(nicks: &N, name: Seq<u8>) -> spec_fn(Member) -> bool {
    |m: Member| nicks.nick(m.id) == name
}

pub open spec fn is_member(members: Seq<Member>, id: usize) -> bool {
    member_index(members, id) < members.len()
}

pub proof fn lemma_member_index(members: Seq<Member>, id: usize)
    ensures
        0 <= member_index(members, id) <= members.len(),
        is_member(members, id) ==> members[member_index(members, id)].id == id,
        is_member(members, id) <==> exists|i: int| 0 <= i < members.len() && members[i].id == id,
        forall|j: int| 0 <= j < member_index(members, id) ==> (#[trigger] members[j]).id != id,
{
    let p = has_id(id);
    lemma_first_where(members, p);
    if exists|i: int| 0 <= i < members.len() && members[i].id == id {
        let i = choose|i: int| 0 <= i < members.len() && members[i].id == id;
        if !is_member(members, id) {
            assert(!p(members[i]));
        }
    }
}

/// The members with `id` put in: with the modes of a creator where the
/// channel had no member, else with no mode.  A client that is a member
/// already keeps its place and gets these modes.
pub open spec fn with_member(members: Seq<Member>, id: usize) -> Seq<Member> {
    let modes = if members.len() == 0 {
        MemberModes { creator: true, operator: true, voice: false }
    } else {
        MemberModes { creator: false, operator: false, voice: false }
    };
    if is_member(members, id) {
        members.update(member_index(members, id), Member { id, modes })
    } else {
        members.push(Member { id, modes })
    }
}

/// The members without `id`.
pub open spec fn without_member(members: Seq<Member>, id: usize) -> Seq<Member> {
    if is_member(members, id) {
        members.remove(member_index(members, id))
    } else {
        members
    }
}

pub proof fn lemma_without_member(members: Seq<Member>, id: usize)
    requires
        distinct_members(members),
    ensures
        distinct_members(without_member(members, id)),
        !is_member(without_member(members, id), id),
        forall|other: usize|
            other != id ==> (#[trigger] is_member(without_member(members, id), other)
                == is_member(members, other)),
        without_member(members, id).len() == if is_member(members, id) {
            members.len() - 1
        } else {
            members.len() as int
        },
{
    let after = without_member(members, id);
    lemma_member_index(members, id);
    lemma_member_index(after, id);
    let at = member_index(members, id);
    if is_member(members, id) {
        assert forall|i: int, j: int| 0 <= i < j < after.len() implies after[i].id != after[j].id by {
            let a = if i < at { i } else { i + 1 };
            let b = if j < at { j } else { j + 1 };
            assert(members[a].id != members[b].id);
        }
        if is_member(after, id) {
            let k = member_index(after, id);
            let a = if k < at { k } else { k + 1 };
            assert(members[a].id == id);
            assert(a != at);
        }
    }
    assert forall|other: usize| other != id implies (#[trigger] is_member(after, other)
        == is_member(members, other)) by {
        lemma_member_index(members, other);
        lemma_member_index(after, other);
        if is_member(members, id) {
            if is_member(members, other) {
                let k = member_index(members, other);
                let a = if k < at { k } else { k - 1 };
                assert(after[a].id == other);
            }
            if is_member(after, other) {
                let k = member_index(after, other);
                let a = if k < at { k } else { k + 1 };
                assert(members[a].id == other);
            }
        }
    }
}

pub proof fn lemma_with_member(members: Seq<Member>, id: usize)
    requires
        distinct_members(members),
    ensures
        distinct_members(with_member(members, id)),
        is_member(with_member(members, id), id),
        with_member(members, id).len() > 0,
        forall|other: usize|
            other != id ==> (#[trigger] is_member(with_member(members, id), other) == is_member(
                members,
                other,
            )),
{
    let after = with_member(members, id);
    lemma_member_index(members, id);
    lemma_member_index(after, id);
    let at = member_index(members, id);
    assert forall|i: int, j: int| 0 <= i < j < after.len() implies after[i].id != after[j].id by {
        if is_member(members, id) {
            assert(members[i].id != members[j].id);
        } else if j < members.len() {
            assert(members[i].id != members[j].id);
        } else {
            assert(after[i] == members[i]);
        }
    }
    if is_member(members, id) {
        assert(after[at].id == id);
    } else {
        assert(after[after.len() - 1].id == id);
    }
    assert forall|other: usize| other != id implies (#[trigger] is_member(after, other)
        == is_member(members, other)) by {
        lemma_member_index(members, other);
        lemma_member_index(after, other);
        if is_member(members, other) {
            let k = member_index(members, other);
            assert(after[k].id == other);
        }
        if is_member(after, other) {
            let k = member_index(after, other);
            assert(k < members.len());
            assert(members[k].id == other);
        }
    }
}

/// Something that knows the nickname of each client.
pub trait NickOf {
    /// The nickname of the client `id`; empty where it has none.
    spec fn nick(&self, id: usize) -> Seq<u8>;

    /// Whether `name` is the nickname of the client `id`.
    fn nick_is(&self, id: usize, name: &[u8]) -> (r: bool)
        ensures
            r == (self.nick(id) == name@),
    ;
}

/// Nicknames where no client has one.
pub struct NoNicks;

impl NickOf for NoNicks {
    open spec fn nick(&self, id: usize) -> Seq<u8> {
        Seq::<u8>::empty()
    }

    fn nick_is(&self, id: usize, name: &[u8]) -> (r: bool) {
        assert(name@.len() == 0 ==> name@ =~= Seq::<u8>::empty());
        name.len() == 0
    }
}

/// A client and its nickname.
pub struct NickEntry {
    pub id: usize,
    pub nick: Vec<u8>,
}

/// Nicknames from a list: each client has the nickname of the first entry
/// that names it.
pub struct NickList {
    pub entries: Vec<NickEntry>,
}

/// The test that an entry names the client `id`.
pub open spec fn names_client(id: usize) -> spec_fn(NickEntry) -> bool {
    |e: NickEntry| e.id == id
}

impl NickOf for NickList {
    open spec fn nick(&self, id: usize) -> Seq<u8> {
        let at = first_where(self.entries@, names_client(id));
        if 0 <= at < self.entries@.len() {
            self.entries@[at].nick@
        } else {
            Seq::<u8>::empty()
        }
    }

    fn nick_is(&self, id: usize, name: &[u8]) -> (r: bool) {
        let mut i: usize = 0;
        while i < self.entries.len()
            invariant
                i <= self.entries@.len(),
                forall|j: int| 0 <= j < i ==> !names_client(id)(#[trigger] self.entries@[j]),
            ensures
                i <= self.entries@.len(),
                i < self.entries@.len() ==> names_client(id)(self.entries@[i as int]),
                forall|j: int| 0 <= j < i ==> !names_client(id)(#[trigger] self.entries@[j]),
            decreases self.entries@.len() - i,
        {
            if self.entries[i].id == id {
                break ;
            }
            i += 1;
        }
        proof {
            lemma_first_where_is(self.entries@, names_client(id), i as int);
        }
        if i < self.entries.len() {
            eq(self.entries[i].nick.as_slice(), name)
        } else {
            assert(name@.len() == 0 ==> name@ =~= Seq::<u8>::empty());
            name.len() == 0
        }
    }
}

/// The place of the first member whose nickname is `name`, or the number
/// of members where none has it.
pub open spec fn named_member<N: NickOf>(members: Seq<Member>, nicks: &N, name: Seq<u8>) -> int {
    first_where(members, has_nick(nicks, name))
}

/// The members with the modes of the one at `at` replaced.
pub open spec fn with_modes(members: Seq<Member>, at: int, modes: MemberModes) -> Seq<Member> {
    members.update(at, Member { id: members[at].id, modes })
}

/// What setting or unsetting one flag does.
pub open spec fn apply_flag_change(ch: ChannelView, kind: ModeKind, value: bool) -> (
    ChannelView,
    Result<bool, u16>,
) {
    match kind {
        ModeKind::Anonymous => (ChannelView { anonymous: value, ..ch }, Ok(ch.anonymous != value)),
        ModeKind::InviteOnly => (
            ChannelView { invite_only: value, ..ch },
            Ok(ch.invite_only != value),
        ),
        ModeKind::Moderated => (ChannelView { moderated: value, ..ch }, Ok(ch.moderated != value)),
        ModeKind::NoPrivMsgFromOutside => (
            ChannelView { no_privmsg_from_outside: value, ..ch },
            Ok(ch.no_privmsg_from_outside != value),
        ),
        ModeKind::Quiet => (ChannelView { quiet: value, ..ch }, Ok(ch.quiet != value)),
        ModeKind::Secret => (ChannelView { secret: value, ..ch }, Ok(ch.secret != value)),
        ModeKind::TopicRestricted => (
            ChannelView { topic_restricted: value, ..ch },
            Ok(ch.topic_restricted != value),
        ),
        _ => (ch, Ok(false)),
    }
}

/// What a key record does: a key is set only where none is set, and taken
/// away only by the key itself.
pub open spec fn apply_key_change(ch: ChannelView, value: bool, key: Seq<u8>) -> (
    ChannelView,
    Result<bool, u16>,
) {
    if value {
        if ch.key.is_some() {
            (ch, Err(rpl::ERR_KEYSET))
        } else {
            (ChannelView { key: Some(key), ..ch }, Ok(true))
        }
    } else if ch.key == Some(key) {
        (ChannelView { key: None, ..ch }, Ok(true))
    } else {
        (ch, Ok(false))
    }
}

/// What a user limit record does; a limit that cannot be read changes
/// nothing.
pub open spec fn apply_limit_change(ch: ChannelView, limit: Option<Seq<u8>>) -> (
    ChannelView,
    Result<bool, u16>,
) {
    match limit {
        Some(p) => match number(p) {
            Some(n) => (ChannelView { user_limit: Some(n), ..ch }, Ok(ch.user_limit != Some(n))),
            None => (ch, Ok(false)),
        },
        None => (ChannelView { user_limit: None, ..ch }, Ok(ch.user_limit.is_some())),
    }
}

/// A list with `entry` put in (`value`) or taken out.
pub open spec fn changed_list(list: Seq<Seq<u8>>, value: bool, entry: Seq<u8>) -> Seq<Seq<u8>> {
    if value {
        list_insert(list, entry)
    } else {
        list_remove(list, entry)
    }
}

/// What a record for one of the three lists does.
pub open spec fn apply_list_change(ch: ChannelView, kind: ModeKind, value: bool, entry: Seq<u8>) -> (
    ChannelView,
    Result<bool, u16>,
) {
    match kind {
        ModeKind::ChangeBan => (
            ChannelView { ban_mask: changed_list(ch.ban_mask, value, entry), ..ch },
            Ok(ch.ban_mask.contains(entry) != value),
        ),
        ModeKind::ChangeException => (
            ChannelView { exception_mask: changed_list(ch.exception_mask, value, entry), ..ch },
            Ok(ch.exception_mask.contains(entry) != value),
        ),
        ModeKind::ChangeInvitation => (
            ChannelView { invitation_mask: changed_list(ch.invitation_mask, value, entry), ..ch },
            Ok(ch.invitation_mask.contains(entry) != value),
        ),
        _ => (ch, Ok(false)),
    }
}

/// What a record for the operator mode, or for the voice, of the member at
/// `target` does; it is refused where `target` is no place among the
/// members.
pub open spec fn apply_member_change(ch: ChannelView, voice: bool, value: bool, target: int) -> (
    ChannelView,
    Result<bool, u16>,
) {
    if 0 <= target < ch.members.len() {
        let modes = ch.members[target].modes;
        if voice {
            (
                ChannelView {
                    members: with_modes(ch.members, target, MemberModes { voice: value, ..modes }),
                    ..ch
                },
                Ok(modes.voice != value),
            )
        } else {
            (
                ChannelView {
                    members: with_modes(
                        ch.members,
                        target,
                        MemberModes { operator: value, ..modes },
                    ),
                    ..ch
                },
                Ok(modes.operator != value),
            )
        }
    } else {
        (ch, Err(rpl::ERR_USERNOTINCHANNEL))
    }
}

/// What a mode record does to a channel, and what its application
/// reports: whether it changed anything, or the numeric reply that
/// refuses it.  `target` is the place of the member that the parameter of
/// the record names, or the number of members where it names none.
///
/// The list queries and the private mode change nothing.
pub open spec fn apply_change(ch: ChannelView, c: ChangeView, target: int) -> (
    ChannelView,
    Result<bool, u16>,
) {
    let param = match c.param {
        Some(p) => p,
        None => Seq::<u8>::empty(),
    };
    if is_flag(c.kind) {
        apply_flag_change(ch, c.kind, c.value)
    } else if c.kind == ModeKind::Key {
        apply_key_change(ch, c.value, param)
    } else if c.kind == ModeKind::UserLimit {
        apply_limit_change(ch, c.param)
    } else if is_list(c.kind) {
        apply_list_change(ch, c.kind, c.value, param)
    } else if c.kind == ModeKind::ChangeOperator {
        apply_member_change(ch, false, c.value, target)
    } else if c.kind == ModeKind::ChangeVoice {
        apply_member_change(ch, true, c.value, target)
    } else {
        (ch, Ok(false))
    }
}

/// The kinds of record that put an entry into a list or take it out.
pub open spec fn is_list(kind: ModeKind) -> bool {
    kind == ModeKind::ChangeBan || kind == ModeKind::ChangeException || kind
        == ModeKind::ChangeInvitation
}

/// A channel after the records of a list were applied to it in order, the
/// error records and the refused ones skipped, with no member named.
pub open spec fn apply_all(ch: ChannelView, records: Seq<Result<ChangeView, Error>>) -> ChannelView
    decreases records.len(),
{
    if records.len() == 0 {
        ch
    } else {
        let next = match records[0] {
            Ok(c) => apply_change(ch, c, ch.members.len() as int).0,
            Err(_) => ch,
        };
        apply_all(next, records.subrange(1, records.len() as int))
    }
}

/// One step of `apply_all` on a channel without members, which stays
/// without members.
proof fn lemma_apply_all_step(ch: ChannelView, all: Seq<Result<ChangeView, Error>>, i: int)
    requires
        0 <= i < all.len(),
        ch.members.len() == 0,
    ensures
        ({
            let next = match all[i] {
                Ok(c) => apply_change(ch, c, 0).0,
                Err(_) => ch,
            };
            &&& next.members.len() == 0
            &&& apply_all(ch, all.subrange(i, all.len() as int)) == apply_all(
                next,
                all.subrange(i + 1, all.len() as int),
            )
        }),
{
    let rest = all.subrange(i, all.len() as int);
    assert(rest.subrange(1, rest.len() as int) =~= all.subrange(i + 1, all.len() as int));
    assert(rest[0] == all[i]);
}

/// Whether a client with this nickname is kept out by the ban list: it is
/// on it, and neither on the exception list nor on the invitation list.
pub open spec fn banned(ch: ChannelView, nick: Seq<u8>) -> bool {
    ch.ban_mask.contains(nick) && !ch.exception_mask.contains(nick)
        && !ch.invitation_mask.contains(nick)
}

/// Whether the channel lets a client with this nickname in as far as
/// invitations go: it is not invite-only, or the nickname is on the
/// invitation list.
pub open spec fn invited(ch: ChannelView, nick: Seq<u8>) -> bool {
    !ch.invite_only || ch.invitation_mask.contains(nick)
}

/// Whether the client `id` may speak on the channel.  On a moderated
/// channel only a voiced member or an operator may; else any member may,
/// and anyone where the channel takes messages from outside.
pub open spec fn may_talk(ch: ChannelView, id: usize) -> bool {
    if ch.moderated {
        is_member(ch.members, id) && {
            let modes = ch.members[member_index(ch.members, id)].modes;
            modes.voice || modes.operator
        }
    } else {
        !ch.no_privmsg_from_outside || is_member(ch.members, id)
    }
}

impl Channel {
    /// No client is a member twice and no list holds an entry twice.
    pub open spec fn wf(&self) -> bool {
        view_wf(self@)
    }

    /// A channel without members, with the modes that `modes` sets.
    pub fn new(modes: &[u8]) -> (chan: Channel)
        ensures
            chan.wf(),
            chan@ == apply_all(
                empty_channel(),
                channel_changes(modes@, 0, true, Seq::<Seq<u8>>::empty(), 0),
            ),
            chan@.members.len() == 0,
    {
        let mut chan = Channel {
            members: Vec::new(),
            topic: None,
            user_limit: None,
            key: None,
            ban_mask: Vec::new(),
            exception_mask: Vec::new(),
            invitation_mask: Vec::new(),
            anonymous: false,
            invite_only: false,
            moderated: false,
            no_privmsg_from_outside: false,
            quiet: false,
            secret: false,
            reop: false,
            topic_restricted: false,
        };
        assert(chan@ =~= empty_channel()) by {
            assert(chan@.ban_mask =~= seq![]);
            assert(chan@.exception_mask =~= seq![]);
            assert(chan@.invitation_mask =~= seq![]);
            assert(chan@.members =~= seq![]);
        }
        let none: Vec<Vec<u8>> = Vec::new();
        let records = ChannelQuery::collect(modes, none.as_slice());
        let ghost all = channel_changes(modes@, 0, true, Seq::<Seq<u8>>::empty(), 0);
        assert(crate::modes::params_view(none@) =~= Seq::<Seq<u8>>::empty());
        let nicks = NoNicks;
        let mut i: usize = 0;
        assert(all.subrange(0, all.len() as int) =~= all);
        while i < records.len()
            invariant
                i <= records@.len(),
                records_view(records@) == all,
                chan.wf(),
                chan@.members.len() == 0,
                apply_all(chan@, all.subrange(i as int, all.len() as int)) == apply_all(
                    empty_channel(),
                    all,
                ),
            decreases records@.len() - i,
        {
            let ghost before = chan@;
            proof {
                lemma_apply_all_step(before, all, i as int);
                assert(records_view(records@)[i as int] == all[i as int]);
            }
            match &records[i] {
                Ok(change) => {
                    let _ = chan.apply_mode_change(change, &nicks);
                    assert(named_target(before, change@, &nicks) == 0);
                },
                Err(_) => {},
            }
            i += 1;
        }
        assert(all.subrange(all.len() as int, all.len() as int) =~= seq![]);
        chan
    }

    /// The place of the client `id` among the members, or their number.
    pub fn find_member(&self, id: usize) -> (at: usize)
        ensures
            at == member_index(self@.members, id),
            at <= self@.members.len(),
    {
        let mut i: usize = 0;
        while i < self.members.len()
            invariant
                i <= self.members@.len(),
                forall|j: int| 0 <= j < i ==> (#[trigger] self.members@[j]).id != id,
            ensures
                i <= self.members@.len(),
                i < self.members@.len() ==> self.members@[i as int].id == id,
                forall|j: int| 0 <= j < i ==> (#[trigger] self.members@[j]).id != id,
            decreases self.members@.len() - i,
        {
            if self.members[i].id == id {
                break ;
            }
            i += 1;
        }
        proof {
            lemma_first_where_is(self.members@, has_id(id), i as int);
        }
        i
    }

    /// Whether the client `id` is a member.
    pub fn has_member(&self, id: usize) -> (r: bool)
        ensures
            r == is_member(self@.members, id),
    {
        self.find_member(id) < self.members.len()
    }

    /// The modes of the client `id` on the channel, if it is a member.
    pub fn member_modes(&self, id: usize) -> (r: Option<MemberModes>)
        ensures
            r.is_some() == is_member(self@.members, id),
            r.is_some() ==> r.unwrap() == self@.members[member_index(self@.members, id)].modes,
    {
        let at = self.find_member(id);
        if at < self.members.len() {
            Some(self.members[at].modes)
        } else {
            None
        }
    }

    /// Adds a member: as creator and operator where the channel was empty,
    /// else without modes.
    pub fn add_member(&mut self, id: usize)
        requires
            old(self).wf(),
        ensures
            final(self).wf(),
            final(self)@ == (ChannelView {
                members: with_member(old(self)@.members, id),
                ..old(self)@
            }),
    {
        let modes = if self.members.len() == 0 {
            MemberModes { creator: true, operator: true, voice: false }
        } else {
            MemberModes::default()
        };
        let at = self.find_member(id);
        if at < self.members.len() {
            self.members[at] = Member { id, modes };
        } else {
            self.members.push(Member { id, modes });
        }
        proof {
            lemma_with_member(old(self)@.members, id);
        }
    }

    /// Removes a member.
    pub fn remove_member(&mut self, id: usize)
        requires
            old(self).wf(),
        ensures
            final(self).wf(),
            final(self)@ == (ChannelView {
                members: without_member(old(self)@.members, id),
                ..old(self)@
            }),
    {
        let at = self.find_member(id);
        if at < self.members.len() {
            let _ = self.members.remove(at);
        }
        proof {
            lemma_without_member(old(self)@.members, id);
        }
    }

    /// Whether a client with this nickname is kept out by the ban list.
    pub fn is_banned(&self, nick: &[u8]) -> (r: bool)
        ensures
            r == banned(self@, nick@),
    {
        list_contains(&self.ban_mask, nick) && !list_contains(&self.exception_mask, nick)
            && !list_contains(&self.invitation_mask, nick)
    }

    /// Whether the channel lets a client with this nickname in as far as
    /// invitations go.
    pub fn is_invited(&self, nick: &[u8]) -> (r: bool)
        ensures
            r == invited(self@, nick@),
    {
        !self.invite_only || list_contains(&self.invitation_mask, nick)
    }

    /// Whether the client `id` may speak on the channel.
    pub fn can_talk(&self, id: usize) -> (r: bool)
        ensures
            r == may_talk(self@, id),
    {
        if self.moderated {
            match self.member_modes(id) {
                Some(m) => m.voice || m.operator,
                None => false,
            }
        } else {
            !self.no_privmsg_from_outside || self.has_member(id)
        }
    }

    /// The sign of the channel in a list of names: `@` where it is secret,
    /// else `=`.
    pub fn symbol(&self) -> (r: u8)
        ensures
            r == (if self.secret {
                SYMBOL_SECRET
            } else {
                SYMBOL_PUBLIC
            }),
    {
        if self.secret {
            SYMBOL_SECRET
        } else {
            SYMBOL_PUBLIC
        }
    }

    /// The letters of the modes that are set, behind a `+`.
    pub open spec fn mode_letters(ch: ChannelView) -> Seq<u8> {
        seq![crate::text::PLUS] + letter_if(ch.anonymous, crate::modes::MODE_ANONYMOUS) + letter_if(
            ch.invite_only,
            crate::modes::MODE_INVITE_ONLY,
        ) + letter_if(ch.moderated, crate::modes::MODE_MODERATED) + letter_if(
            ch.no_privmsg_from_outside,
            crate::modes::MODE_NO_PRIVMSG_FROM_OUTSIDE,
        ) + letter_if(ch.quiet, crate::modes::MODE_QUIET) + letter_if(
            ch.reop,
            crate::modes::MODE_REOP,
        ) + letter_if(ch.secret, crate::modes::MODE_SECRET) + letter_if(
            ch.topic_restricted,
            crate::modes::MODE_TOPIC_RESTRICTED,
        ) + letter_if(ch.user_limit.is_some(), crate::modes::MODE_USER_LIMIT) + letter_if(
            ch.key.is_some(),
            crate::modes::MODE_KEY,
        )
    }

    /// Adds to a line the number of members and the topic of the channel,
    /// as they stand in a list of channels.
    pub fn list_entry(&self, msg: MessageBuffer) -> (r: MessageBuffer)
        requires
            msg.wf(),
        ensures
            r.wf(),
            r.tags() == msg.tags(),
            r.body() == crate::buffer::with_trailing(
                crate::buffer::with_param(
                    msg.body(),
                    crate::text::decimal(self@.members.len()),
                ),
                match self@.topic {
                    Some(t) => t.content,
                    None => Seq::<u8>::empty(),
                },
            ),
    {
        let msg = msg.fmt_param(self.members.len());
        match &self.topic {
            Some(topic) => msg.trailing_param(topic.content.as_slice()),
            None => {
                let none: Vec<u8> = Vec::new();
                assert(none@ =~= Seq::<u8>::empty());
                msg.trailing_param(none.as_slice())
            },
        }
    }

    /// Adds to a line the modes of the channel: the letters of the modes
    /// that are set, and with `full_info` the user limit and the key.
    pub fn modes(&self, msg: MessageBuffer, full_info: bool) -> (r: MessageBuffer)
        requires
            msg.wf(),
        ensures
            r.wf(),
            r.tags() == msg.tags(),
            r.body() == mode_params(msg.body(), self@, full_info),
    {
        let mut letters: Vec<u8> = Vec::new();
        letters.push(crate::text::PLUS);
        assert(letters@ =~= seq![crate::text::PLUS]);
        push_if(&mut letters, self.anonymous, crate::modes::MODE_ANONYMOUS);
        push_if(&mut letters, self.invite_only, crate::modes::MODE_INVITE_ONLY);
        push_if(&mut letters, self.moderated, crate::modes::MODE_MODERATED);
        push_if(
            &mut letters,
            self.no_privmsg_from_outside,
            crate::modes::MODE_NO_PRIVMSG_FROM_OUTSIDE,
        );
        push_if(&mut letters, self.quiet, crate::modes::MODE_QUIET);
        push_if(&mut letters, self.reop, crate::modes::MODE_REOP);
        push_if(&mut letters, self.secret, crate::modes::MODE_SECRET);
        push_if(&mut letters, self.topic_restricted, crate::modes::MODE_TOPIC_RESTRICTED);
        push_if(&mut letters, self.user_limit.is_some(), crate::modes::MODE_USER_LIMIT);
        push_if(&mut letters, self.key.is_some(), crate::modes::MODE_KEY);
        assert(letters@ =~= Self::mode_letters(self@));
        let mut out = msg.param(letters.as_slice());
        if full_info {
            match self.user_limit {
                Some(limit) => {
                    out = out.fmt_param(limit);
                },
                None => {},
            }
            match &self.key {
                Some(key) => {
                    out = out.param(key.as_slice());
                },
                None => {},
            }
        }
        out
    }

    fn find_named<N: NickOf>(&self, nicks: &N, name: &[u8]) -> (at: usize)
        ensures
            at == named_member(self@.members, nicks, name@),
            at <= self@.members.len(),
    {
        let mut i: usize = 0;
        while i < self.members.len()
            invariant
                i <= self.members@.len(),
                forall|j: int|
                    0 <= j < i ==> nicks.nick((#[trigger] self.members@[j]).id) != name@,
            ensures
                i <= self.members@.len(),
                i < self.members@.len() ==> nicks.nick(self.members@[i as int].id) == name@,
                forall|j: int|
                    0 <= j < i ==> nicks.nick((#[trigger] self.members@[j]).id) != name@,
            decreases self.members@.len() - i,
        {
            if nicks.nick_is(self.members[i].id, name) {
                break ;
            }
            i += 1;
        }
        proof {
            lemma_first_where_is(self.members@, has_nick(nicks, name@), i as int);
        }
        i
    }

    fn apply_key(&mut self, value: bool, key: &[u8]) -> (r: Result<bool, u16>)
        requires
            old(self).wf(),
        ensures
            final(self).wf(),
            (final(self)@, r) == apply_key_change(old(self)@, value, key@),
    {
        if value {
            if self.key.is_some() {
                Err(rpl::ERR_KEYSET)
            } else {
                self.key = Some(to_vec(key));
                Ok(true)
            }
        } else {
            let same = match &self.key {
                Some(chan_key) => eq(key, chan_key.as_slice()),
                None => false,
            };
            if same {
                self.key = None;
                Ok(true)
            } else {
                Ok(false)
            }
        }
    }

    fn apply_limit(&mut self, limit: Option<&[u8]>) -> (applied: bool)
        requires
            old(self).wf(),
        ensures
            final(self).wf(),
            (final(self)@, Ok::<bool, u16>(applied)) == apply_limit_change(
                old(self)@,
                match limit {
                    Some(l) => Some(l@),
                    None => None,
                },
            ),
    {
        match limit {
            Some(s) => match parse_usize(s) {
                Some(limit) => {
                    let applied = match self.user_limit {
                        Some(chan_limit) => chan_limit != limit,
                        None => true,
                    };
                    self.user_limit = Some(limit);
                    applied
                },
                None => false,
            },
            None => {
                let applied = self.user_limit.is_some();
                self.user_limit = None;
                applied
            },
        }
    }

    fn apply_member(&mut self, at: usize, voice: bool, value: bool) -> (r: Result<bool, u16>)
        requires
            old(self).wf(),
            at <= old(self)@.members.len(),
        ensures
            final(self).wf(),
            (final(self)@, r) == apply_member_change(old(self)@, voice, value, at as int),
    {
        if at < self.members.len() {
            let member = self.members[at];
            let applied = if voice {
                member.modes.voice != value
            } else {
                member.modes.operator != value
            };
            let modes = if voice {
                MemberModes {
                    creator: member.modes.creator,
                    operator: member.modes.operator,
                    voice: value,
                }
            } else {
                MemberModes {
                    creator: member.modes.creator,
                    operator: value,
                    voice: member.modes.voice,
                }
            };
            self.members[at] = Member { id: member.id, modes };
            assert(distinct_members(self@.members));
            Ok(applied)
        } else {
            Err(rpl::ERR_USERNOTINCHANNEL)
        }
    }

    fn apply_flag(&mut self, kind: ModeKind, value: bool) -> (applied: bool)
        requires
            old(self).wf(),
            is_flag(kind),
        ensures
            final(self).wf(),
            (final(self)@, Ok::<bool, u16>(applied)) == apply_flag_change(old(self)@, kind, value),
    {
        match kind {
            ModeKind::Anonymous => {
                let applied = self.anonymous != value;
                self.anonymous = value;
                applied
            },
            ModeKind::InviteOnly => {
                let applied = self.invite_only != value;
                self.invite_only = value;
                applied
            },
            ModeKind::Moderated => {
                let applied = self.moderated != value;
                self.moderated = value;
                applied
            },
            ModeKind::NoPrivMsgFromOutside => {
                let applied = self.no_privmsg_from_outside != value;
                self.no_privmsg_from_outside = value;
                applied
            },
            ModeKind::Quiet => {
                let applied = self.quiet != value;
                self.quiet = value;
                applied
            },
            ModeKind::Secret => {
                let applied = self.secret != value;
                self.secret = value;
                applied
            },
            ModeKind::TopicRestricted => {
                let applied = self.topic_restricted != value;
                self.topic_restricted = value;
                applied
            },
            _ => false,
        }
    }

    fn apply_to_list(&mut self, kind: ModeKind, value: bool, param: &[u8]) -> (applied: bool)
        requires
            old(self).wf(),
            is_list(kind),
        ensures
            final(self).wf(),
            (final(self)@, Ok::<bool, u16>(applied)) == apply_list_change(
                old(self)@,
                kind,
                value,
                param@,
            ),
    {
        match kind {
            ModeKind::ChangeBan => apply_list(&mut self.ban_mask, value, param),
            ModeKind::ChangeException => apply_list(&mut self.exception_mask, value, param),
            _ => apply_list(&mut self.invitation_mask, value, param),
        }
    }

    /// Applies one mode record.
    ///
    /// `Ok(true)` says that the channel changed, `Ok(false)` that the
    /// record asked for what already held; `Err` carries the numeric
    /// reply that refuses the record, and the channel is as before.
    pub fn apply_mode_change<N: NickOf>(&mut self, change: &ChannelModeChange, nicks: &N) -> (r:
        Result<bool, u16>)
        requires
            old(self).wf(),
        ensures
            final(self).wf(),
            (final(self)@, r) == apply_change(
                old(self)@,
                change@,
                named_target(old(self)@, change@, nicks),
            ),
    {
        let kind = change.kind();
        let value = change.value();
        let param = change.param();
        proof {
            change.lemma_view_shape();
        }
        match kind {
            ModeKind::Anonymous
            | ModeKind::InviteOnly
            | ModeKind::Moderated
            | ModeKind::NoPrivMsgFromOutside
            | ModeKind::Quiet
            | ModeKind::Secret
            | ModeKind::TopicRestricted => Ok(self.apply_flag(kind, value)),
            ModeKind::Key => match param {
                Some(key) => self.apply_key(value, key),
                None => Ok(false),
            },
            ModeKind::UserLimit => Ok(self.apply_limit(param)),
            ModeKind::ChangeBan | ModeKind::ChangeException | ModeKind::ChangeInvitation => match param {
                Some(p) => Ok(self.apply_to_list(kind, value, p)),
                None => Ok(false),
            },
            ModeKind::ChangeOperator => match param {
                Some(name) => {
                    let at = self.find_named(nicks, name);
                    self.apply_member(at, false, value)
                },
                None => Ok(false),
            },
            ModeKind::ChangeVoice => match param {
                Some(name) => {
                    let at = self.find_named(nicks, name);
                    self.apply_member(at, true, value)
                },
                None => Ok(false),
            },
            _ => Ok(false),
        }
    }
}

/// The kinds of record that set or unset one flag of a channel.
pub open spec fn is_flag(kind: ModeKind) -> bool {
    kind == ModeKind::Anonymous || kind == ModeKind::InviteOnly || kind == ModeKind::Moderated
        || kind == ModeKind::NoPrivMsgFromOutside || kind == ModeKind::Quiet || kind
        == ModeKind::Secret || kind == ModeKind::TopicRestricted
}

/// Puts `param` into a list of a channel, or takes it out; says whether
/// the list changed.
fn apply_list(list: &mut Vec<Vec<u8>>, value: bool, param: &[u8]) -> (applied: bool)
    ensures
        views(final(list)@) == changed_list(views(old(list)@), value, param@),
        applied == (views(old(list)@).contains(param@) != value),
        distinct(views(old(list)@)) ==> distinct(views(final(list)@)),
{
    if value {
        list_add(list, param)
    } else {
        list_drop(list, param)
    }
}

fn push_if(letters: &mut Vec<u8>, set: bool, letter: u8)
    ensures
        final(letters)@ == old(letters)@ + letter_if(set, letter),
{
    if set {
        letters.push(letter);
    }
    assert(letters@ =~= old(letters)@ + letter_if(set, letter));
}

/// One mode letter where the mode is set.
pub open spec fn letter_if(set: bool, letter: u8) -> Seq<u8> {
    if set {
        seq![letter]
    } else {
        Seq::<u8>::empty()
    }
}

/// A line with the modes of a channel added: the letters, and with
/// `full_info` the user limit and the key where they are set.
pub open spec fn mode_params(body: Seq<u8>, ch: ChannelView, full_info: bool) -> Seq<u8> {
    let with_letters = crate::buffer::with_param(body, Channel::mode_letters(ch));
    if !full_info {
        with_letters
    } else {
        let with_limit = match ch.user_limit {
            Some(limit) => crate::buffer::with_param(
                with_letters,
                crate::text::decimal(limit as nat),
            ),
            None => with_letters,
        };
        match ch.key {
            Some(key) => crate::buffer::with_param(with_limit, key),
            None => with_limit,
        }
    }
}

/// No client is a member twice and no list holds an entry twice.
pub open spec fn view_wf(ch: ChannelView) -> bool {
    &&& distinct_members(ch.members)
    &&& distinct(ch.ban_mask)
    &&& distinct(ch.exception_mask)
    &&& distinct(ch.invitation_mask)
}

/// The place of the member that the parameter of a record names, or the
/// number of members.
pub open spec fn named_target<N: NickOf>(ch: ChannelView, c: ChangeView, nicks: &N) -> int {
    named_member(
        ch.members,
        nicks,
        match c.param {
            Some(p) => p,
            None => Seq::<u8>::empty(),
        },
    )
}

proof fn lemma_list_insert_twice(list: Seq<Seq<u8>>, x: Seq<u8>)
    ensures
        list_insert(list, x).contains(x),
        list_insert(list_insert(list, x), x) == list_insert(list, x),
{
    if !list.contains(x) {
        assert(list.push(x)[list.len() as int] == x);
    }
}

proof fn lemma_list_remove_twice(list: Seq<Seq<u8>>, x: Seq<u8>)
    requires
        distinct(list),
    ensures
        !list_remove(list, x).contains(x),
        list_remove(list_remove(list, x), x) == list_remove(list, x),
{
    crate::text::lemma_index_in(list, x);
    if list.contains(x) {
        let at = crate::text::index_in(list, x);
        let after = list.remove(at);
        if after.contains(x) {
            let k = choose|k: int| 0 <= k < after.len() && after[k] == x;
            let a = if k < at {
                k
            } else {
                k + 1
            };
            assert(list[a] == x);
            assert(list[at] == x);
        }
    }
}

proof fn lemma_named_member_same_ids<N: NickOf>(
    a: Seq<Member>,
    b: Seq<Member>,
    nicks: &N,
    name: Seq<u8>,
)
    requires
        a.len() == b.len(),
        forall|i: int| 0 <= i < a.len() ==> (#[trigger] a[i]).id == b[i].id,
    ensures
        named_member(a, nicks, name) == named_member(b, nicks, name),
{
    let p = has_nick(nicks, name);
    lemma_first_where(a, p);
    let at = first_where(a, p);
    assert forall|j: int| 0 <= j < at implies !p(#[trigger] b[j]) by {
        assert(!p(a[j]));
    }
    if at < a.len() {
        assert(a[at].id == b[at].id);
    }
    lemma_first_where_is(b, p, at);
}

proof fn lemma_flag_twice(ch: ChannelView, kind: ModeKind, value: bool)
    ensures
        ({
            let once = apply_flag_change(ch, kind, value);
            apply_flag_change(once.0, kind, value) == (once.0, Ok::<bool, u16>(false))
        }),
{
}

proof fn lemma_key_twice(ch: ChannelView, value: bool, key: Seq<u8>)
    ensures
        ({
            let once = apply_key_change(ch, value, key);
            let twice = apply_key_change(once.0, value, key);
            &&& twice.0 == once.0
            &&& !value ==> twice.1 == Ok::<bool, u16>(false)
        }),
{
}

proof fn lemma_limit_twice(ch: ChannelView, limit: Option<Seq<u8>>)
    ensures
        ({
            let once = apply_limit_change(ch, limit);
            apply_limit_change(once.0, limit) == (once.0, Ok::<bool, u16>(false))
        }),
{
}

proof fn lemma_list_twice(ch: ChannelView, kind: ModeKind, value: bool, entry: Seq<u8>)
    requires
        view_wf(ch),
    ensures
        ({
            let once = apply_list_change(ch, kind, value, entry);
            apply_list_change(once.0, kind, value, entry) == (once.0, Ok::<bool, u16>(false))
        }),
{
    lemma_list_insert_twice(ch.ban_mask, entry);
    lemma_list_remove_twice(ch.ban_mask, entry);
    lemma_list_insert_twice(ch.exception_mask, entry);
    lemma_list_remove_twice(ch.exception_mask, entry);
    lemma_list_insert_twice(ch.invitation_mask, entry);
    lemma_list_remove_twice(ch.invitation_mask, entry);
}

proof fn lemma_member_twice(ch: ChannelView, voice: bool, value: bool, target: int)
    ensures
        ({
            let once = apply_member_change(ch, voice, value, target);
            let twice = apply_member_change(once.0, voice, value, target);
            &&& twice.0 == once.0
            &&& once.1 is Ok ==> twice.1 == Ok::<bool, u16>(false)
            &&& once.0.members.len() == ch.members.len()
            &&& forall|i: int|
                0 <= i < ch.members.len() ==> (#[trigger] ch.members[i]).id == once.0.members[i].id
        }),
{
    let once = apply_member_change(ch, voice, value, target);
    let twice = apply_member_change(once.0, voice, value, target);
    if 0 <= target < ch.members.len() {
        assert(twice.0.members =~= once.0.members);
    }
}

/// A record that is refused changes nothing.
pub proof fn lemma_refused_changes_nothing(ch: ChannelView, c: ChangeView, target: int)
    ensures
        apply_change(ch, c, target).1 is Err ==> apply_change(ch, c, target).0 == ch,
{
}

/// A mode record changes neither who the members are nor their order.
pub proof fn lemma_apply_keeps_members(ch: ChannelView, c: ChangeView, target: int)
    ensures
        apply_change(ch, c, target).0.members.len() == ch.members.len(),
        forall|i: int|
            0 <= i < ch.members.len() ==> (#[trigger] apply_change(ch, c, target).0.members[i]).id
                == ch.members[i].id,
{
    let param = match c.param {
        Some(p) => p,
        None => Seq::<u8>::empty(),
    };
    if is_flag(c.kind) {
        assert(apply_flag_change(ch, c.kind, c.value).0.members == ch.members);
    } else if c.kind == ModeKind::Key {
        assert(apply_key_change(ch, c.value, param).0.members == ch.members);
    } else if c.kind == ModeKind::UserLimit {
        assert(apply_limit_change(ch, c.param).0.members == ch.members);
    } else if is_list(c.kind) {
        assert(apply_list_change(ch, c.kind, c.value, param).0.members == ch.members);
    } else if c.kind == ModeKind::ChangeOperator || c.kind == ModeKind::ChangeVoice {
        lemma_member_twice(ch, c.kind == ModeKind::ChangeVoice, c.value, target);
    }
}

/// Applying one mode record twice does what applying it once does: the
/// channel after the second application is the channel after the first.
/// And the second application reports that nothing changed, where the
/// first was accepted and the record does not set a key (a second setting
/// of a key is refused, since the first one set it).
pub proof fn lemma_mode_change_idempotent<N: NickOf>(ch: ChannelView, c: ChangeView, nicks: &N)
    requires
        view_wf(ch),
    ensures
        ({
            let once = apply_change(ch, c, named_target(ch, c, nicks));
            let twice = apply_change(once.0, c, named_target(once.0, c, nicks));
            &&& twice.0 == once.0
            &&& once.1 is Ok && !(c.kind == ModeKind::Key && c.value) ==> twice.1 == Ok::<
                bool,
                u16,
            >(false)
        }),
{
    let target = named_target(ch, c, nicks);
    let param = match c.param {
        Some(p) => p,
        None => Seq::<u8>::empty(),
    };
    if is_flag(c.kind) {
        lemma_flag_twice(ch, c.kind, c.value);
    } else if c.kind == ModeKind::Key {
        lemma_key_twice(ch, c.value, param);
    } else if c.kind == ModeKind::UserLimit {
        lemma_limit_twice(ch, c.param);
    } else if is_list(c.kind) {
        lemma_list_twice(ch, c.kind, c.value, param);
    } else if c.kind == ModeKind::ChangeOperator || c.kind == ModeKind::ChangeVoice {
        let voice = c.kind == ModeKind::ChangeVoice;
        lemma_member_twice(ch, voice, c.value, target);
        let once = apply_member_change(ch, voice, c.value, target);
        lemma_named_member_same_ids(ch.members, once.0.members, nicks, param);
    }
}

/// The topic, the key and the user limit of a channel are there or not
/// each on its own, and the three lists may hold the same entry: whatever
/// they hold, a channel is well formed where no member and no entry of one
/// list stands twice.
pub proof fn lemma_channel_fields_independent(
    ch: ChannelView,
    topic: Option<TopicView>,
    key: Option<Seq<u8>>,
    user_limit: Option<usize>,
    entry: Seq<u8>,
)
    requires
        view_wf(ch),
    ensures
        view_wf(ChannelView { topic, key, user_limit, ..ch }),
        view_wf(
            ChannelView {
                ban_mask: seq![entry],
                exception_mask: seq![entry],
                invitation_mask: seq![entry],
                ..ch
            },
        ),
{
}

} // verus!
