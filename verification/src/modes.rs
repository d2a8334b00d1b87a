//! The grammar of mode strings.
//!
//! A mode string such as `+im-k` is read letter by letter.  A `+` or a `-`
//! latches the sign of the letters that follow; every other byte is a mode
//! letter and yields one change record, or an error record that names what
//! is wrong with it.  Channel modes may take their parameter from the list
//! of parameters that came with the mode string.

use vstd::prelude::*;
use crate::text::{number, parse_usize, to_vec, MINUS, PLUS};

verus! {

pub const MODE_ANONYMOUS: u8 = 0x61;
pub const MODE_BAN: u8 = 0x62;
pub const MODE_EXCEPTION: u8 = 0x65;
pub const MODE_INVITE_ONLY: u8 = 0x69;
pub const MODE_INVITATION: u8 = 0x49;
pub const MODE_KEY: u8 = 0x6b;
pub const MODE_USER_LIMIT: u8 = 0x6c;
pub const MODE_MODERATED: u8 = 0x6d;
pub const MODE_NO_PRIVMSG_FROM_OUTSIDE: u8 = 0x6e;
pub const MODE_OPERATOR: u8 = 0x6f;
pub const MODE_PRIVATE: u8 = 0x70;
pub const MODE_QUIET: u8 = 0x71;
pub const MODE_REOP: u8 = 0x72;
pub const MODE_SECRET: u8 = 0x73;
pub const MODE_TOPIC_RESTRICTED: u8 = 0x74;
pub const MODE_VOICE: u8 = 0x76;
pub const MODE_INVISIBLE: u8 = 0x69;
pub const MODE_WALLOPS: u8 = 0x77;
pub const MODE_SERVER_NOTICES: u8 = 0x73;

/// The next mode letter at or after `pos`, with the sign that holds for it
/// and the position behind it; `None` where only signs are left.
pub open spec fn scan(modes: Seq<u8>, pos: int, value: bool) -> Option<(bool, u8, int)>
    decreases modes.len() - pos,
{
    if pos < 0 || pos >= modes.len() {
        None
    } else if modes[pos] == PLUS {
        scan(modes, pos + 1, true)
    } else if modes[pos] == MINUS {
        scan(modes, pos + 1, false)
    } else {
        Some((value, modes[pos], pos + 1))
    }
}

pub proof fn lemma_scan_advances(modes: Seq<u8>, pos: int, value: bool)
    requires
        0 <= pos,
    ensures
        scan(modes, pos, value) matches Some(s) ==> pos < s.2 <= modes.len(),
    decreases modes.len() - pos,
{
    if pos < modes.len() && (modes[pos] == PLUS || modes[pos] == MINUS) {
        lemma_scan_advances(modes, pos + 1, modes[pos] == PLUS);
    }
}

/// A reader of signs and mode letters, shared by the user and the channel
/// grammar.
pub struct SimpleQuery<'a> {
    pub modes: &'a [u8],
    pub pos: usize,
    pub value: bool,
}

impl<'a> SimpleQuery<'a> {
    pub open spec fn wf(&self) -> bool {
        self.pos <= self.modes@.len()
    }

    /// The next mode letter with its sign.
    pub fn next(&mut self) -> (r: Option<(bool, u8)>)
        requires
            old(self).wf(),
        ensures
            final(self).wf(),
            final(self).modes@ == old(self).modes@,
            old(self).pos <= final(self).pos,
            match scan(old(self).modes@, old(self).pos as int, old(self).value) {
                Some((value, letter, pos)) => r == Some((value, letter)) && final(self).pos == pos
                    && final(self).value == value,
                None => r.is_none() && scan(
                    final(self).modes@,
                    final(self).pos as int,
                    final(self).value,
                ).is_none(),
            },
    {
        loop
            invariant
                self.wf(),
                self.modes@ == old(self).modes@,
                old(self).pos <= self.pos,
                scan(self.modes@, self.pos as int, self.value) == scan(
                    old(self).modes@,
                    old(self).pos as int,
                    old(self).value,
                ),
            decreases self.modes@.len() - self.pos,
        {
            if self.pos >= self.modes.len() {
                return None;
            }
            let c = self.modes[self.pos];
            self.pos = self.pos + 1;
            if c == PLUS {
                self.value = true;
            } else if c == MINUS {
                self.value = false;
            } else {
                return Some((self.value, c));
            }
        }
    }
}

/// What is wrong with a mode letter.
#[derive(Clone, Copy, Debug, PartialEq, Eq, Structural)]
pub enum Error {
    /// The letter names no mode.
    UnknownMode(u8),
    /// The mode needs a parameter and none is left.
    MissingModeParam,
    /// The parameter of the mode cannot be read.
    BadModeParam,
}

/// A change to the modes of a user.
#[derive(Clone, Copy, Debug, PartialEq, Eq, Structural)]
pub enum UserModeChange {
    Invisible(bool),
    Wallops(bool),
    ServerNotices(bool),
}

/// The record that one user mode letter yields under a sign.
pub open spec fn user_change(value: bool, letter: u8) -> Result<UserModeChange, Error> {
    if letter == MODE_INVISIBLE {
        Ok(UserModeChange::Invisible(value))
    } else if letter == MODE_WALLOPS {
        Ok(UserModeChange::Wallops(value))
    } else if letter == MODE_SERVER_NOTICES {
        Ok(UserModeChange::ServerNotices(value))
    } else {
        Err(Error::UnknownMode(letter))
    }
}

/// The records that a user mode string yields from `pos` on, in order.
pub open spec fn user_changes(modes: Seq<u8>, pos: int, value: bool) -> Seq<
    Result<UserModeChange, Error>,
>
    decreases modes.len() - pos,
{
    match scan(modes, pos, value) {
        Some((v, letter, next)) => {
            if pos < next <= modes.len() {
                seq![user_change(v, letter)] + user_changes(modes, next, v)
            } else {
                seq![]
            }
        },
        None => seq![],
    }
}

/// The reader of a user mode string.
pub struct UserQuery<'a> {
    pub inner: SimpleQuery<'a>,
}

impl<'a> UserQuery<'a> {
    pub open spec fn wf(&self) -> bool {
        self.inner.wf()
    }

    /// The records that are still to come.
    pub open spec fn rest(&self) -> Seq<Result<UserModeChange, Error>> {
        user_changes(self.inner.modes@, self.inner.pos as int, self.inner.value)
    }

    /// A reader at the start of `modes`, with the sign `+`.
    pub fn new(modes: &'a [u8]) -> (q: UserQuery<'a>)
        ensures
            q.wf(),
            q.rest() == user_changes(modes@, 0, true),
            q.inner.modes@ == modes@,
    {
        UserQuery { inner: SimpleQuery { modes, pos: 0, value: true } }
    }

    /// The next record, or `None` at the end of the mode string.
    pub fn next(&mut self) -> (r: Option<Result<UserModeChange, Error>>)
        requires
            old(self).wf(),
        ensures
            final(self).wf(),
            final(self).inner.modes@ == old(self).inner.modes@,
            old(self).rest().len() == 0 ==> r.is_none() && final(self).rest().len() == 0,
            old(self).rest().len() > 0 ==> r == Some(old(self).rest()[0]) && final(self).inner.pos
                > old(self).inner.pos && final(self).rest() == old(self).rest().subrange(
                1,
                old(self).rest().len() as int,
            ),
    {
        proof {
            lemma_scan_advances(self.inner.modes@, self.inner.pos as int, self.inner.value);
        }
        let ghost before = self.rest();
        match self.inner.next() {
            Some((value, letter)) => {
                assert(before.subrange(1, before.len() as int) =~= self.rest());
                if letter == MODE_INVISIBLE {
                    Some(Ok(UserModeChange::Invisible(value)))
                } else if letter == MODE_WALLOPS {
                    Some(Ok(UserModeChange::Wallops(value)))
                } else if letter == MODE_SERVER_NOTICES {
                    Some(Ok(UserModeChange::ServerNotices(value)))
                } else {
                    Some(Err(Error::UnknownMode(letter)))
                }
            },
            None => None,
        }
    }

    /// All the records of `modes`, in order.
    pub fn collect(modes: &'a [u8]) -> (r: Vec<Result<UserModeChange, Error>>)
        ensures
            r@ == user_changes(modes@, 0, true),
    {
        let mut query = UserQuery::new(modes);
        let mut out: Vec<Result<UserModeChange, Error>> = Vec::new();
        loop
            invariant
                query.wf(),
                out@ + query.rest() == user_changes(modes@, 0, true),
                query.inner.modes@ == modes@,
            decreases modes@.len() - query.inner.pos,
        {
            proof {
                lemma_scan_advances(query.inner.modes@, query.inner.pos as int, query.inner.value);
            }
            let ghost before = query.rest();
            match query.next() {
                Some(record) => {
                    out.push(record);
                    assert(out@ + query.rest() =~= out@.drop_last() + before);
                },
                None => {
                    assert(out@ + query.rest() =~= out@);
                    return out;
                },
            }
        }
    }
}

/// The kinds of channel mode records.
#[derive(Clone, Copy, Debug, PartialEq, Eq, Structural)]
pub enum ModeKind {
    Anonymous,
    InviteOnly,
    Moderated,
    NoPrivMsgFromOutside,
    Quiet,
    Private,
    Secret,
    TopicRestricted,
    Key,
    UserLimit,
    GetBans,
    GetExceptions,
    GetInvitations,
    ChangeBan,
    ChangeException,
    ChangeInvitation,
    ChangeOperator,
    ChangeVoice,
}

/// A change to the modes of a channel, or a query for one of its lists.
#[derive(Debug)]
pub enum ChannelModeChange {
    Anonymous(bool),
    InviteOnly(bool),
    Moderated(bool),
    NoPrivMsgFromOutside(bool),
    Quiet(bool),
    Private(bool),
    Secret(bool),
    TopicRestricted(bool),
    Key(bool, Vec<u8>),
    UserLimit(Option<Vec<u8>>),
    GetBans,
    GetExceptions,
    GetInvitations,
    ChangeBan(bool, Vec<u8>),
    ChangeException(bool, Vec<u8>),
    ChangeInvitation(bool, Vec<u8>),
    ChangeOperator(bool, Vec<u8>),
    ChangeVoice(bool, Vec<u8>),
}

/// What a channel mode record says: its kind, whether it sets or unsets, and
/// the parameter that it carries.
pub struct ChangeView {
    pub kind: ModeKind,
    pub value: bool,
    pub param: Option<Seq<u8>>,
}

impl View for ChannelModeChange {
    type V = ChangeView;

    open spec fn view(&self) -> ChangeView {
        match self {
            ChannelModeChange::Anonymous(v) => ChangeView {
                kind: ModeKind::Anonymous,
                value: *v,
                param: None,
            },
            ChannelModeChange::InviteOnly(v) => ChangeView {
                kind: ModeKind::InviteOnly,
                value: *v,
                param: None,
            },
            ChannelModeChange::Moderated(v) => ChangeView {
                kind: ModeKind::Moderated,
                value: *v,
                param: None,
            },
            ChannelModeChange::NoPrivMsgFromOutside(v) => ChangeView {
                kind: ModeKind::NoPrivMsgFromOutside,
                value: *v,
                param: None,
            },
            ChannelModeChange::Quiet(v) => ChangeView {
                kind: ModeKind::Quiet,
                value: *v,
                param: None,
            },
            ChannelModeChange::Private(v) => ChangeView {
                kind: ModeKind::Private,
                value: *v,
                param: None,
            },
            ChannelModeChange::Secret(v) => ChangeView {
                kind: ModeKind::Secret,
                value: *v,
                param: None,
            },
            ChannelModeChange::TopicRestricted(v) => ChangeView {
                kind: ModeKind::TopicRestricted,
                value: *v,
                param: None,
            },
            ChannelModeChange::Key(v, p) => ChangeView {
                kind: ModeKind::Key,
                value: *v,
                param: Some(p@),
            },
            ChannelModeChange::UserLimit(Some(p)) => ChangeView {
                kind: ModeKind::UserLimit,
                value: true,
                param: Some(p@),
            },
            ChannelModeChange::UserLimit(None) => ChangeView {
                kind: ModeKind::UserLimit,
                value: false,
                param: None,
            },
            ChannelModeChange::GetBans => ChangeView {
                kind: ModeKind::GetBans,
                value: false,
                param: None,
            },
            ChannelModeChange::GetExceptions => ChangeView {
                kind: ModeKind::GetExceptions,
                value: false,
                param: None,
            },
            ChannelModeChange::GetInvitations => ChangeView {
                kind: ModeKind::GetInvitations,
                value: false,
                param: None,
            },
            ChannelModeChange::ChangeBan(v, p) => ChangeView {
                kind: ModeKind::ChangeBan,
                value: *v,
                param: Some(p@),
            },
            ChannelModeChange::ChangeException(v, p) => ChangeView {
                kind: ModeKind::ChangeException,
                value: *v,
                param: Some(p@),
            },
            ChannelModeChange::ChangeInvitation(v, p) => ChangeView {
                kind: ModeKind::ChangeInvitation,
                value: *v,
                param: Some(p@),
            },
            ChannelModeChange::ChangeOperator(v, p) => ChangeView {
                kind: ModeKind::ChangeOperator,
                value: *v,
                param: Some(p@),
            },
            ChannelModeChange::ChangeVoice(v, p) => ChangeView {
                kind: ModeKind::ChangeVoice,
                value: *v,
                param: Some(p@),
            },
        }
    }
}

/// The letter of each kind of record; the list queries have none.
pub open spec fn kind_symbol(kind: ModeKind) -> Option<u8> {
    match kind {
        ModeKind::Anonymous => Some(MODE_ANONYMOUS),
        ModeKind::InviteOnly => Some(MODE_INVITE_ONLY),
        ModeKind::Moderated => Some(MODE_MODERATED),
        ModeKind::NoPrivMsgFromOutside => Some(MODE_NO_PRIVMSG_FROM_OUTSIDE),
        ModeKind::Quiet => Some(MODE_QUIET),
        ModeKind::Private => Some(MODE_PRIVATE),
        ModeKind::Secret => Some(MODE_SECRET),
        ModeKind::TopicRestricted => Some(MODE_TOPIC_RESTRICTED),
        ModeKind::Key => Some(MODE_KEY),
        ModeKind::UserLimit => Some(MODE_USER_LIMIT),
        ModeKind::ChangeBan => Some(MODE_BAN),
        ModeKind::ChangeException => Some(MODE_EXCEPTION),
        ModeKind::ChangeInvitation => Some(MODE_INVITATION),
        ModeKind::ChangeOperator => Some(MODE_OPERATOR),
        ModeKind::ChangeVoice => Some(MODE_VOICE),
        ModeKind::GetBans => None,
        ModeKind::GetExceptions => None,
        ModeKind::GetInvitations => None,
    }
}

/// Whether a record of this kind carries a parameter, given whether it
/// sets or unsets.
pub open spec fn kind_has_param(kind: ModeKind, value: bool) -> bool {
    match kind {
        ModeKind::Key => true,
        ModeKind::UserLimit => value,
        ModeKind::ChangeBan => true,
        ModeKind::ChangeException => true,
        ModeKind::ChangeInvitation => true,
        ModeKind::ChangeOperator => true,
        ModeKind::ChangeVoice => true,
        _ => false,
    }
}

impl ChannelModeChange {
    /// A record carries a parameter where its kind asks for one, and only
    /// there; a list query sets nothing.
    pub proof fn lemma_view_shape(&self)
        ensures
            self@.param.is_some() == kind_has_param(self@.kind, self@.value),
            kind_symbol(self@.kind).is_none() ==> !self@.value,
    {
    }

    /// The kind of the record.
    pub fn kind(&self) -> (r: ModeKind)
        ensures
            r == self@.kind,
    {
        match self {
            ChannelModeChange::Anonymous(_) => ModeKind::Anonymous,
            ChannelModeChange::InviteOnly(_) => ModeKind::InviteOnly,
            ChannelModeChange::Moderated(_) => ModeKind::Moderated,
            ChannelModeChange::NoPrivMsgFromOutside(_) => ModeKind::NoPrivMsgFromOutside,
            ChannelModeChange::Quiet(_) => ModeKind::Quiet,
            ChannelModeChange::Private(_) => ModeKind::Private,
            ChannelModeChange::Secret(_) => ModeKind::Secret,
            ChannelModeChange::TopicRestricted(_) => ModeKind::TopicRestricted,
            ChannelModeChange::Key(_, _) => ModeKind::Key,
            ChannelModeChange::UserLimit(_) => ModeKind::UserLimit,
            ChannelModeChange::GetBans => ModeKind::GetBans,
            ChannelModeChange::GetExceptions => ModeKind::GetExceptions,
            ChannelModeChange::GetInvitations => ModeKind::GetInvitations,
            ChannelModeChange::ChangeBan(_, _) => ModeKind::ChangeBan,
            ChannelModeChange::ChangeException(_, _) => ModeKind::ChangeException,
            ChannelModeChange::ChangeInvitation(_, _) => ModeKind::ChangeInvitation,
            ChannelModeChange::ChangeOperator(_, _) => ModeKind::ChangeOperator,
            ChannelModeChange::ChangeVoice(_, _) => ModeKind::ChangeVoice,
        }
    }

    /// Whether the record sets (`true`) or unsets.  A list query sets
    /// nothing; a user limit sets where it carries the limit.
    pub fn value(&self) -> (r: bool)
        ensures
            r == self@.value,
    {
        match self {
            ChannelModeChange::Anonymous(v) => *v,
            ChannelModeChange::InviteOnly(v) => *v,
            ChannelModeChange::Moderated(v) => *v,
            ChannelModeChange::NoPrivMsgFromOutside(v) => *v,
            ChannelModeChange::Quiet(v) => *v,
            ChannelModeChange::Private(v) => *v,
            ChannelModeChange::Secret(v) => *v,
            ChannelModeChange::TopicRestricted(v) => *v,
            ChannelModeChange::Key(v, _) => *v,
            ChannelModeChange::ChangeBan(v, _) => *v,
            ChannelModeChange::ChangeException(v, _) => *v,
            ChannelModeChange::ChangeInvitation(v, _) => *v,
            ChannelModeChange::ChangeOperator(v, _) => *v,
            ChannelModeChange::ChangeVoice(v, _) => *v,
            ChannelModeChange::UserLimit(l) => l.is_some(),
            _ => false,
        }
    }

    /// The mode letter of the record; a list query has none.
    pub fn symbol(&self) -> (r: Option<u8>)
        ensures
            r == kind_symbol(self@.kind),
    {
        match self {
            ChannelModeChange::Anonymous(_) => Some(MODE_ANONYMOUS),
            ChannelModeChange::InviteOnly(_) => Some(MODE_INVITE_ONLY),
            ChannelModeChange::Moderated(_) => Some(MODE_MODERATED),
            ChannelModeChange::NoPrivMsgFromOutside(_) => Some(MODE_NO_PRIVMSG_FROM_OUTSIDE),
            ChannelModeChange::Quiet(_) => Some(MODE_QUIET),
            ChannelModeChange::Private(_) => Some(MODE_PRIVATE),
            ChannelModeChange::Secret(_) => Some(MODE_SECRET),
            ChannelModeChange::TopicRestricted(_) => Some(MODE_TOPIC_RESTRICTED),
            ChannelModeChange::Key(_, _) => Some(MODE_KEY),
            ChannelModeChange::UserLimit(_) => Some(MODE_USER_LIMIT),
            ChannelModeChange::ChangeBan(_, _) => Some(MODE_BAN),
            ChannelModeChange::ChangeException(_, _) => Some(MODE_EXCEPTION),
            ChannelModeChange::ChangeInvitation(_, _) => Some(MODE_INVITATION),
            ChannelModeChange::ChangeOperator(_, _) => Some(MODE_OPERATOR),
            ChannelModeChange::ChangeVoice(_, _) => Some(MODE_VOICE),
            _ => None,
        }
    }

    /// The parameter that the record carries, if it carries one.
    pub fn param(&self) -> (r: Option<&[u8]>)
        ensures
            r.is_some() == self@.param.is_some(),
            r.is_some() ==> r.unwrap()@ == self@.param.unwrap(),
    {
        match self {
            ChannelModeChange::UserLimit(Some(p)) => Some(p.as_slice()),
            ChannelModeChange::Key(_, p) => Some(p.as_slice()),
            ChannelModeChange::ChangeBan(_, p) => Some(p.as_slice()),
            ChannelModeChange::ChangeException(_, p) => Some(p.as_slice()),
            ChannelModeChange::ChangeInvitation(_, p) => Some(p.as_slice()),
            ChannelModeChange::ChangeOperator(_, p) => Some(p.as_slice()),
            ChannelModeChange::ChangeVoice(_, p) => Some(p.as_slice()),
            _ => None,
        }
    }
}

/// Whether a channel mode letter takes the next parameter, under the given
/// sign and with `left` parameters still unread.
pub open spec fn takes_param(value: bool, letter: u8, left: bool) -> bool {
    left && (letter == MODE_KEY || letter == MODE_OPERATOR || letter == MODE_VOICE || letter
        == MODE_BAN || letter == MODE_EXCEPTION || letter == MODE_INVITATION || (letter
        == MODE_USER_LIMIT && value))
}

/// The record that one channel mode letter yields under a sign, given the
/// next unread parameter if there is one.
///
/// The simple modes ignore the parameters.  A key, an operator and a voice
/// need one.  A user limit needs a number when it is set and takes nothing
/// when it is unset.  A list mode without a parameter asks for the list.
pub open spec fn channel_change(value: bool, letter: u8, param: Option<Seq<u8>>) -> Result<
    ChangeView,
    Error,
> {
    let simple = |kind: ModeKind| Ok::<ChangeView, Error>(ChangeView { kind, value, param: None });
    let with = |kind: ModeKind|
        match param {
            Some(p) => Ok::<ChangeView, Error>(ChangeView { kind, value, param: Some(p) }),
            None => Err::<ChangeView, Error>(Error::MissingModeParam),
        };
    let list = |kind: ModeKind, query: ModeKind|
        match param {
            Some(p) => Ok::<ChangeView, Error>(ChangeView { kind, value, param: Some(p) }),
            None => Ok::<ChangeView, Error>(ChangeView { kind: query, value: false, param: None }),
        };
    if letter == MODE_ANONYMOUS {
        simple(ModeKind::Anonymous)
    } else if letter == MODE_INVITE_ONLY {
        simple(ModeKind::InviteOnly)
    } else if letter == MODE_MODERATED {
        simple(ModeKind::Moderated)
    } else if letter == MODE_NO_PRIVMSG_FROM_OUTSIDE {
        simple(ModeKind::NoPrivMsgFromOutside)
    } else if letter == MODE_QUIET {
        simple(ModeKind::Quiet)
    } else if letter == MODE_PRIVATE {
        simple(ModeKind::Private)
    } else if letter == MODE_SECRET {
        simple(ModeKind::Secret)
    } else if letter == MODE_TOPIC_RESTRICTED {
        simple(ModeKind::TopicRestricted)
    } else if letter == MODE_KEY {
        with(ModeKind::Key)
    } else if letter == MODE_OPERATOR {
        with(ModeKind::ChangeOperator)
    } else if letter == MODE_VOICE {
        with(ModeKind::ChangeVoice)
    } else if letter == MODE_USER_LIMIT {
        if !value {
            Ok(ChangeView { kind: ModeKind::UserLimit, value: false, param: None })
        } else {
            match param {
                None => Err(Error::MissingModeParam),
                Some(p) => if number(p).is_some() {
                    Ok(ChangeView { kind: ModeKind::UserLimit, value: true, param: Some(p) })
                } else {
                    Err(Error::BadModeParam)
                },
            }
        }
    } else if letter == MODE_BAN {
        list(ModeKind::ChangeBan, ModeKind::GetBans)
    } else if letter == MODE_EXCEPTION {
        list(ModeKind::ChangeException, ModeKind::GetExceptions)
    } else if letter == MODE_INVITATION {
        list(ModeKind::ChangeInvitation, ModeKind::GetInvitations)
    } else {
        Err(Error::UnknownMode(letter))
    }
}

/// The records that a channel mode string yields from `pos` on, with the
/// parameters from `used` on still unread.
pub open spec fn channel_changes(
    modes: Seq<u8>,
    pos: int,
    value: bool,
    params: Seq<Seq<u8>>,
    used: int,
) -> Seq<Result<ChangeView, Error>>
    decreases modes.len() - pos,
{
    match scan(modes, pos, value) {
        Some((v, letter, next)) => {
            if pos < next <= modes.len() && 0 <= used <= params.len() {
                let left = used < params.len();
                let param = if left {
                    Some(params[used])
                } else {
                    None
                };
                let rest = if takes_param(v, letter, left) {
                    used + 1
                } else {
                    used
                };
                seq![channel_change(v, letter, param)] + channel_changes(
                    modes,
                    next,
                    v,
                    params,
                    rest,
                )
            } else {
                seq![]
            }
        },
        None => seq![],
    }
}

/// The views of a list of records.
pub open spec fn records_view(records: Seq<Result<ChannelModeChange, Error>>) -> Seq<
    Result<ChangeView, Error>,
> {
    Seq::new(
        records.len(),
        |i: int|
            match records[i] {
                Ok(change) => Ok(change@),
                Err(e) => Err(e),
            },
    )
}

/// The views of a list of parameters.
pub open spec fn params_view(params: Seq<Vec<u8>>) -> Seq<Seq<u8>> {
    Seq::new(params.len(), |i: int| params[i]@)
}

/// The reader of a channel mode string and of the parameters that came with
/// it.
pub struct ChannelQuery<'a> {
    pub inner: SimpleQuery<'a>,
    pub params: &'a [Vec<u8>],
    pub used: usize,
}

impl<'a> ChannelQuery<'a> {
    pub open spec fn wf(&self) -> bool {
        self.inner.wf() && self.used <= self.params@.len()
    }

    /// The records that are still to come.
    pub open spec fn rest(&self) -> Seq<Result<ChangeView, Error>> {
        channel_changes(
            self.inner.modes@,
            self.inner.pos as int,
            self.inner.value,
            params_view(self.params@),
            self.used as int,
        )
    }

    /// A reader at the start of `modes`, with the sign `+` and all of
    /// `params` unread.
    pub fn new(modes: &'a [u8], params: &'a [Vec<u8>]) -> (q: ChannelQuery<'a>)
        ensures
            q.wf(),
            q.rest() == channel_changes(modes@, 0, true, params_view(params@), 0),
            q.inner.modes@ == modes@,
            q.params@ == params@,
    {
        ChannelQuery { inner: SimpleQuery { modes, pos: 0, value: true }, params, used: 0 }
    }

    /// A reader of a mode string that came without parameters.
    pub fn simple(modes: &'a [u8]) -> (q: ChannelQuery<'a>)
        ensures
            q.wf(),
            q.rest() == channel_changes(modes@, 0, true, Seq::<Seq<u8>>::empty(), 0),
            q.inner.modes@ == modes@,
            q.params@.len() == 0,
    {
        let q = ChannelQuery {
            inner: SimpleQuery { modes, pos: 0, value: true },
            params: &[],
            used: 0,
        };
        assert(params_view(q.params@) =~= Seq::<Seq<u8>>::empty());
        q
    }

    fn take_param(&mut self) -> (r: Option<Vec<u8>>)
        requires
            old(self).wf(),
        ensures
            final(self).wf(),
            final(self).inner == old(self).inner,
            final(self).params@ == old(self).params@,
            old(self).used < old(self).params@.len() ==> final(self).used == old(self).used + 1
                && r.is_some() && r.unwrap()@ == old(self).params@[old(self).used as int]@,
            old(self).used >= old(self).params@.len() ==> final(self).used == old(self).used
                && r.is_none(),
    {
        if self.used < self.params.len() {
            let p = to_vec(self.params[self.used].as_slice());
            self.used = self.used + 1;
            Some(p)
        } else {
            None
        }
    }

    /// The next record, or `None` at the end of the mode string.
    pub fn next(&mut self) -> (r: Option<Result<ChannelModeChange, Error>>)
        requires
            old(self).wf(),
        ensures
            final(self).wf(),
            final(self).inner.modes@ == old(self).inner.modes@,
            final(self).params@ == old(self).params@,
            old(self).inner.pos <= final(self).inner.pos,
            old(self).rest().len() == 0 ==> r.is_none() && final(self).rest().len() == 0,
            old(self).rest().len() > 0 ==> r.is_some() && final(self).inner.pos > old(
                self,
            ).inner.pos && (match r.unwrap() {
                Ok(change) => Ok::<ChangeView, Error>(change@),
                Err(e) => Err(e),
            }) == old(self).rest()[0] && final(self).rest() == old(self).rest().subrange(
                1,
                old(self).rest().len() as int,
            ),
    {
        proof {
            lemma_scan_advances(self.inner.modes@, self.inner.pos as int, self.inner.value);
        }
        let ghost before = self.rest();
        let ghost left = self.used < self.params@.len();
        let ghost pv = params_view(self.params@);
        let scanned = self.inner.next();
        let (value, letter) = match scanned {
            Some(pair) => pair,
            None => {
                return None;
            },
        };
        let record = if letter == MODE_ANONYMOUS {
            Ok(ChannelModeChange::Anonymous(value))
        } else if letter == MODE_INVITE_ONLY {
            Ok(ChannelModeChange::InviteOnly(value))
        } else if letter == MODE_MODERATED {
            Ok(ChannelModeChange::Moderated(value))
        } else if letter == MODE_NO_PRIVMSG_FROM_OUTSIDE {
            Ok(ChannelModeChange::NoPrivMsgFromOutside(value))
        } else if letter == MODE_QUIET {
            Ok(ChannelModeChange::Quiet(value))
        } else if letter == MODE_PRIVATE {
            Ok(ChannelModeChange::Private(value))
        } else if letter == MODE_SECRET {
            Ok(ChannelModeChange::Secret(value))
        } else if letter == MODE_TOPIC_RESTRICTED {
            Ok(ChannelModeChange::TopicRestricted(value))
        } else if letter == MODE_KEY {
            match self.take_param() {
                Some(p) => Ok(ChannelModeChange::Key(value, p)),
                None => Err(Error::MissingModeParam),
            }
        } else if letter == MODE_OPERATOR {
            match self.take_param() {
                Some(p) => Ok(ChannelModeChange::ChangeOperator(value, p)),
                None => Err(Error::MissingModeParam),
            }
        } else if letter == MODE_VOICE {
            match self.take_param() {
                Some(p) => Ok(ChannelModeChange::ChangeVoice(value, p)),
                None => Err(Error::MissingModeParam),
            }
        } else if letter == MODE_USER_LIMIT {
            if !value {
                Ok(ChannelModeChange::UserLimit(None))
            } else {
                match self.take_param() {
                    Some(p) => {
                        if parse_usize(p.as_slice()).is_some() {
                            Ok(ChannelModeChange::UserLimit(Some(p)))
                        } else {
                            Err(Error::BadModeParam)
                        }
                    },
                    None => Err(Error::MissingModeParam),
                }
            }
        } else if letter == MODE_BAN {
            match self.take_param() {
                Some(p) => Ok(ChannelModeChange::ChangeBan(value, p)),
                None => Ok(ChannelModeChange::GetBans),
            }
        } else if letter == MODE_EXCEPTION {
            match self.take_param() {
                Some(p) => Ok(ChannelModeChange::ChangeException(value, p)),
                None => Ok(ChannelModeChange::GetExceptions),
            }
        } else if letter == MODE_INVITATION {
            match self.take_param() {
                Some(p) => Ok(ChannelModeChange::ChangeInvitation(value, p)),
                None => Ok(ChannelModeChange::GetInvitations),
            }
        } else {
            Err(Error::UnknownMode(letter))
        };
        proof {
            assert(params_view(self.params@) == pv);
            assert(left ==> pv[old(self).used as int] == old(self).params@[old(self).used as int]@);
            assert(before.subrange(1, before.len() as int) =~= self.rest());
        }
        Some(record)
    }

    /// All the records of a mode string and its parameters, in order.
    pub fn collect(modes: &'a [u8], params: &'a [Vec<u8>]) -> (r: Vec<
        Result<ChannelModeChange, Error>,
    >)
        ensures
            records_view(r@) == channel_changes(modes@, 0, true, params_view(params@), 0),
    {
        let mut query = ChannelQuery::new(modes, params);
        let mut out: Vec<Result<ChannelModeChange, Error>> = Vec::new();
        loop
            invariant
                query.wf(),
                records_view(out@) + query.rest() == channel_changes(
                    modes@,
                    0,
                    true,
                    params_view(params@),
                    0,
                ),
                query.inner.modes@ == modes@,
                query.params@ == params@,
            decreases modes@.len() - query.inner.pos,
        {
            let ghost before = query.rest();
            let ghost done = records_view(out@);
            match query.next() {
                Some(record) => {
                    out.push(record);
                    assert(records_view(out@) =~= done.push(before[0]));
                    assert(records_view(out@) + query.rest() =~= done + before);
                },
                None => {
                    assert(records_view(out@) + query.rest() =~= records_view(out@));
                    return out;
                },
            }
        }
    }
}

} // verus!
