//! The commands of the base protocol.

use vstd::prelude::*;
use vstd::string::StringSliceAdditionalSpecFns;
use crate::auth::Provider;

use crate::channel::{is_member, member_index, Channel, MemberModes};
use crate::client::{full_name, ClientView};
use crate::lines;
use crate::message::Command;
use crate::reply::ReplyBuffer;
use crate::rpl;
use crate::state::base::{channel_index, entry_views, pruned};
use crate::state::send::{notified, out_extended, plain, plain_line, sent_to, sharing, Audience};
use crate::state::{channel_keys, delivery_views, valid_nickname, nickname_ok, CommandContext, Delivery, StateInner};
use crate::table::{table_get, table_get_mut};
use crate::text::{eq, fold, folded, slice, to_vec};

verus! {

pub type HandlerResult = Result<(), ()>;

impl<P: Provider> StateInner<P> {
    /// The place of the channel with this name.  Where there is none, the
    /// client is told so and `None` comes back.
    pub fn find_channel(&self, rb: &mut ReplyBuffer, name: &[u8]) -> (r: Option<usize>)
        requires
            old(rb).wf(),
        ensures
            final(rb).wf(),
            old(rb).extended_by(final(rb)),
            match r {
                Some(at) => at == channel_index(self.channels@, fold(name@)) && at
                    < self.channels@.len() && self.channels@[at as int].key@ == fold(name@)
                    && final(rb).staged() == old(rb).staged(),
                None => !channel_keys(self.channels@).contains(fold(name@)) && channel_index(
                    self.channels@,
                    fold(name@),
                ) == self.channels@.len() && final(rb).staged()
                    == old(rb).staged().push(
                    old(rb).numeric(
                        rpl::ERR_NOSUCHCHANNEL,
                        seq![name@],
                        lines::NO_SUCH_CHANNEL.spec_bytes(),
                    ),
                ),
            },
    {
        let at = self.channel_position(name);
        if at < self.channels.len() {
            Some(at)
        } else {
            rb.reply1(rpl::ERR_NOSUCHCHANNEL, name, lines::NO_SUCH_CHANNEL.as_bytes());
            None
        }
    }

    /// The modes of the client `id` on a channel.  Where it is no member,
    /// the client is told so and `None` comes back.
    pub fn find_member(id: usize, rb: &mut ReplyBuffer, channel: &Channel, channel_name: &[u8]) -> (r:
        Option<MemberModes>)
        requires
            old(rb).wf(),
        ensures
            final(rb).wf(),
            old(rb).extended_by(final(rb)),
            r.is_some() == is_member(channel@.members, id),
            match r {
                Some(modes) => modes == channel@.members[member_index(channel@.members, id)].modes
                    && final(rb).staged() == old(rb).staged(),
                None => final(rb).staged() == old(rb).staged().push(
                    old(rb).numeric(
                        rpl::ERR_NOTONCHANNEL,
                        seq![channel_name@],
                        lines::NOT_ON_CHANNEL.spec_bytes(),
                    ),
                ),
            },
    {
        match channel.member_modes(id) {
            Some(modes) => {
                    Some(modes)
            },
            None => {
                rb.reply1(rpl::ERR_NOTONCHANNEL, channel_name, lines::NOT_ON_CHANNEL.as_bytes());
                None
            },
        }
    }

    /// The registered client with this nickname, if there is one.
    pub open spec fn nick_owner(&self, nick: Seq<u8>) -> Option<usize> {
        if self.nicks@.dom().contains(fold(nick)) && self.has_client(self.nicks@[fold(nick)])
            && self.client(self.nicks@[fold(nick)]).state.registered {
            Some(self.nicks@[fold(nick)])
        } else {
            None
        }
    }

    /// The registered client with this nickname.  Where there is none, the
    /// client that asks is told so and `None` comes back.
    pub fn find_nick(&self, rb: &mut ReplyBuffer, nick: &[u8]) -> (r: Option<usize>)
        requires
            old(rb).wf(),
        ensures
            final(rb).wf(),
            old(rb).extended_by(final(rb)),
            r == self.nick_owner(nick@),
            r.is_some() ==> self.has_client(r.unwrap()) && final(rb).staged() == old(rb).staged(),
            r.is_none() ==> final(rb).staged() == old(rb).staged().push(
                old(rb).numeric(rpl::ERR_NOSUCHNICK, seq![nick@], lines::NO_SUCH_NICK.spec_bytes()),
            ),
    {
        let key = folded(nick);
        let found = match self.nicks.get(key.as_slice()) {
            Some(id) => match table_get(&self.clients, id) {
                Some(client) => if client.is_registered() {
                    Some(id)
                } else {
                    None
                },
                None => None,
            },
            None => None,
        };
        if found.is_none() {
            rb.reply1(rpl::ERR_NOSUCHNICK, nick, lines::NO_SUCH_NICK.as_bytes());
        } else {
        }
        found
    }
}

/// The start of `s` that is not longer than `max`.
pub open spec fn cut(s: Seq<u8>, max: int) -> Seq<u8> {
    if s.len() <= max {
        s
    } else if max <= 0 {
        Seq::<u8>::empty()
    } else {
        s.subrange(0, max)
    }
}

/// The start of `s` that is not longer than `max`.
pub fn truncated(s: &[u8], max: usize) -> (r: Vec<u8>)
    ensures
        r@ == cut(s@, max as int),
{
    if s.len() <= max {
        to_vec(s)
    } else {
        let r = slice(s, 0, max);
        assert(max == 0 ==> r@ =~= Seq::<u8>::empty());
        r
    }
}

impl<P: Provider> StateInner<P> {
    /// The numeric reply that refuses a nickname, if it is refused: it is
    /// no nickname, or a client has it.
    pub open spec fn nick_refusal(&self, nick: Seq<u8>) -> Option<u16> {
        if !valid_nickname(nick, self.nicklen as int) {
            Some(rpl::ERR_ERRONEUSNICKNAME)
        } else if self.nicks@.dom().contains(fold(nick)) {
            Some(rpl::ERR_NICKNAMEINUSE)
        } else {
            None
        }
    }

    /// What `NICK` does to the state, to the replies and to the
    /// deliveries; `r` is what its handler returns.
    pub open spec fn nick_outcome(
        before: &Self,
        after: &Self,
        ctx: &CommandContext,
        rb_before: &ReplyBuffer,
        rb_after: &ReplyBuffer,
        out_before: Seq<Delivery>,
        out_after: Seq<Delivery>,
        nick: Seq<u8>,
        r: Result<(), ()>,
    ) -> bool {
        &&& (after.has_client(ctx.id))
        &&& (after.same_config(before))
        &&& (after.channels == before.channels)
        &&& (after.rehash_requested == before.rehash_requested)
        &&& (r.is_ok() == before.nick_refusal(nick).is_none())
        &&& (r.is_ok() ==> rb_after.nick@ == crate::client::reply_nick(nick))
        &&& (r.is_ok() && !before.client(ctx.id).state.registered ==> rb_after.staged() == rb_before.staged() && delivery_views(out_after) == delivery_views(out_before))
        &&& (r.is_ok() && before.client(ctx.id).state.registered ==> rb_after.staged() == rb_before.staged().push(
                rb_before.other(
                    full_name(before.client(ctx.id)),
                    crate::message::command_name(Command::Nick),
                    seq![nick],
                    None,
                ),
            ) && delivery_views(out_after) == delivery_views(out_before) + sent_to(
                after.clients(),
                notified(
                    after.clients(),
                    sharing(entry_views(after.channels@), ctx.id),
                    ctx.id,
                    Audience::Everyone,
                ),
                plain(
                    full_name(before.client(ctx.id)),
                    crate::message::command_name(Command::Nick),
                    seq![nick],
                    None,
                ),
            ))
        &&& (r.is_err() ==> rb_after.nick@ == rb_before.nick@)
        &&& (r.is_ok() ==> after.client(ctx.id) == (ClientView {
                nick: nick,
                ..before.client(ctx.id)
            }) && after.clients() == before.clients().insert(
                ctx.id,
                after.clients()[ctx.id],
            ) && after.nicks@ == before.nicks@.remove(
                fold(before.client(ctx.id).nick),
            ).insert(fold(nick), ctx.id))
        &&& (r.is_err() ==> after.clients == before.clients && after.nicks == before.nicks && delivery_views(out_after) == delivery_views(out_before) && rb_after.staged() == rb_before.staged().push(
                rb_before.numeric(
                    before.nick_refusal(nick).unwrap(),
                    seq![nick],
                    if before.nick_refusal(nick) == Some(rpl::ERR_ERRONEUSNICKNAME) {
                        lines::ERRONEOUS_NICKNAME.spec_bytes()
                    } else {
                        lines::NICKNAME_IN_USE.spec_bytes()
                    },
                ),
            ))
    }

    /// `NICK`: gives the client a nickname that is one and that no client
    /// has.  A registered client is told of its new nickname, and so is
    /// every client that shares a channel with it.
    pub fn cmd_nick(
        &mut self,
        ctx: &CommandContext,
        rb: &mut ReplyBuffer,
        out: &mut Vec<Delivery>,
        nick: &[u8],
    ) -> (r: HandlerResult)
        requires
            old(self).wf(),
            old(self).has_client(ctx.id),
            old(rb).wf(),
        ensures
            final(self).wf(),
            final(rb).wf(),
            old(rb).grown_to(final(rb)),
            out_extended(old(out)@, final(out)@),
            Self::nick_outcome(old(self), final(self), ctx, old(rb), final(rb), old(out)@, final(out)@, nick@, r),
    {
        if !nickname_ok(nick, self.nicklen) {
            rb.reply1(rpl::ERR_ERRONEUSNICKNAME, nick, lines::ERRONEOUS_NICKNAME.as_bytes());
            return Err(());
        }
        let key = folded(nick);
        if self.nicks.contains(key.as_slice()) {
            rb.reply1(rpl::ERR_NICKNAMEINUSE, nick, lines::NICKNAME_IN_USE.as_bytes());
            return Err(());
        }
        let (registered, name) = match table_get(&self.clients, ctx.id) {
            Some(client) => (client.is_registered(), client.full_name()),
            None => (false, Vec::new()),
        };
        self.set_nick(ctx.id, nick);
        if registered {
            let mut params: Vec<Vec<u8>> = Vec::new();
            params.push(to_vec(nick));
            assert(crate::text::views(params@) =~= seq![nick@]);
            let command = Command::Nick.name();
            rb.send(name.as_slice(), command.as_slice(), &params, None);
            let line = plain_line(name.as_slice(), command.as_slice(), &params, None);
            self.send_notification(out, ctx.id, &line, Audience::Everyone);
        }
        rb.set_nick(nick);
        Ok(())
    }

    /// What `USER` does to the state and to the replies; `r` is what its
    /// handler returns.
    pub open spec fn user_outcome(
        before: &Self,
        after: &Self,
        ctx: &CommandContext,
        rb_before: &ReplyBuffer,
        rb_after: &ReplyBuffer,
        user: Seq<u8>,
        realname: Seq<u8>,
        r: Result<(), ()>,
    ) -> bool {
        &&& (after.has_client(ctx.id))
        &&& (after.same_but_clients(before))
        &&& (r.is_ok() == (cut(user, before.userlen as int).len() > 0 && cut(
                realname,
                before.namelen as int,
            ).len() > 0))
        &&& (r.is_ok() ==> after.client(ctx.id) == (ClientView {
                user: cut(user, before.userlen as int),
                real: cut(realname, before.namelen as int),
                ..before.client(ctx.id)
            }) && after.clients() == before.clients().insert(
                ctx.id,
                after.clients()[ctx.id],
            ) && rb_after.staged() == rb_before.staged())
        &&& (r.is_err() ==> after.clients == before.clients && rb_after.staged() == rb_before.staged().push(
                rb_before.numeric(
                    rpl::ERR_NEEDMOREPARAMS,
                    seq![crate::message::command_name(Command::User)],
                    lines::NEED_MORE_PARAMS.spec_bytes(),
                ),
            ))
    }

    /// `USER`: gives the client its user name and its real name, each cut
    /// to the length that the server allows.  Both must be left with a byte
    /// at least.
    pub fn cmd_user(&mut self, ctx: &CommandContext, rb: &mut ReplyBuffer, user: &[u8], realname: &[u8]) -> (r:
        HandlerResult)
        requires
            old(self).wf(),
            old(self).has_client(ctx.id),
            old(rb).wf(),
        ensures
            final(self).wf(),
            final(rb).wf(),
            old(rb).extended_by(final(rb)),
            Self::user_outcome(old(self), final(self), ctx, old(rb), final(rb), user@, realname@, r),
    {
        let user = truncated(user, self.userlen);
        let realname = truncated(realname, self.namelen);
        if user.len() == 0 || realname.len() == 0 {
            let name = Command::User.name();
            rb.reply1(rpl::ERR_NEEDMOREPARAMS, name.as_slice(), lines::NEED_MORE_PARAMS.as_bytes());
            return Err(());
        }
        let ghost before = *self;
        let client = table_get_mut(&mut self.clients, ctx.id);
        client.user = user;
        client.real = realname;
        proof {
            Self::lemma_client_changed(&before, self, ctx.id);
            assert(rb.staged() =~= old(rb).staged());
        }
        Ok(())
    }

    /// Whether a password is the one that the server asks for; any is
    /// where it asks for none.
    pub open spec fn password_ok(&self, password: Seq<u8>) -> bool {
        match self.password {
            Some(p) => p@ == password,
            None => true,
        }
    }

    /// The replies to `PASS`; `r` is what its handler returns.
    pub open spec fn pass_outcome(
        before: &Self,
        rb_before: &ReplyBuffer,
        rb_after: &ReplyBuffer,
        password: Seq<u8>,
        r: Result<(), ()>,
    ) -> bool {
        &&& (r.is_ok() == before.password_ok(password))
        &&& (r.is_ok() ==> rb_after.staged() == rb_before.staged())
        &&& (r.is_err() ==> rb_after.staged() == rb_before.staged().push(
                rb_before.numeric(
                    rpl::ERR_PASSWDMISMATCH,
                    seq![],
                    lines::PASSWORD_MISMATCH.spec_bytes(),
                ),
            ))
    }

    /// `PASS`: checks the password of the server.
    pub fn cmd_pass(&self, rb: &mut ReplyBuffer, password: &[u8]) -> (r: HandlerResult)
        requires
            old(rb).wf(),
        ensures
            final(rb).wf(),
            old(rb).extended_by(final(rb)),
            Self::pass_outcome(self, old(rb), final(rb), password@, r),
    {
        let ok = match &self.password {
            Some(p) => eq(p.as_slice(), password),
            None => true,
        };
        if ok {
            assert(rb.staged() =~= old(rb).staged());
            Ok(())
        } else {
            rb.reply0(rpl::ERR_PASSWDMISMATCH, lines::PASSWORD_MISMATCH.as_bytes());
            Err(())
        }
    }

    /// The line that tells of a client that it has quit.
    pub open spec fn quit_line(c: ClientView, reason: Option<Seq<u8>>) -> crate::buffer::LineView {
        plain(full_name(c), crate::message::command_name(Command::Quit), seq![], reason)
    }

    /// The line that tells a client why its connection is closed.
    pub open spec fn error_line(text: Seq<u8>) -> crate::buffer::LineView {
        plain(seq![], "ERROR".spec_bytes(), seq![], Some(text))
    }

    /// Removes a client.  Every client that shares a channel with it is
    /// told once that it has quit, with the reason where one is given; the
    /// client itself is sent the error text; then it is taken out of every
    /// channel, out of the index of nicknames and out of the clients, and
    /// the channels that are left without members are dropped.
    pub fn remove_client(
        &mut self,
        id: usize,
        out: &mut Vec<Delivery>,
        err: &[u8],
        reason: Option<&[u8]>,
    )
        requires
            old(self).wf(),
            old(self).has_client(id),
        ensures
            final(self).wf(),
            !final(self).has_client(id),
            final(self).clients() == old(self).clients().remove(id),
            final(self).nicks@ == old(self).nicks@.remove(fold(old(self).client(id).nick)),
            entry_views(final(self).channels@) == pruned(
                entry_views(old(self).channels@),
                id,
                old(self).channels@.len() as int,
            ),
            final(self).same_config(old(self)),
            final(self).rehash_requested == old(self).rehash_requested,
            out_extended(old(out)@, final(out)@),
            delivery_views(final(out)@) == delivery_views(old(out)@) + sent_to(
                old(self).clients(),
                notified(
                    old(self).clients(),
                    sharing(entry_views(old(self).channels@), id),
                    id,
                    Audience::Everyone,
                ),
                Self::quit_line(
                    old(self).client(id),
                    match reason {
                        Some(r) => Some(r@),
                        None => None,
                    },
                ),
            ) + sent_to(old(self).clients(), seq![id], Self::error_line(err@)),
    {
        let name = match table_get(&self.clients, id) {
            Some(client) => client.full_name(),
            None => Vec::new(),
        };
        let none: Vec<Vec<u8>> = Vec::new();
        assert(crate::text::views(none@) =~= Seq::<Seq<u8>>::empty());
        let command = Command::Quit.name();
        let quit = plain_line(name.as_slice(), command.as_slice(), &none, reason);
        self.send_notification(out, id, &quit, Audience::Everyone);
        let empty: Vec<u8> = Vec::new();
        assert(empty@ =~= Seq::<u8>::empty());
        let error = plain_line(empty.as_slice(), "ERROR".as_bytes(), &none, Some(err));
        self.send(out, id, &error);
        let _ = self.take_client(id);
        proof {
            let a = delivery_views(old(out)@);
            let b = sent_to(
                old(self).clients(),
                notified(
                    old(self).clients(),
                    sharing(entry_views(old(self).channels@), id),
                    id,
                    Audience::Everyone,
                ),
                quit@,
            );
            let c = sent_to(old(self).clients(), seq![id], error@);
            assert(delivery_views(out@) =~= a + b + c);
        }
    }

    /// Takes note that a connection is closed: removes its client, if it
    /// is one still.  `err` is what went wrong, where the connection was
    /// not closed in good order; it is told to the others as the reason.
    pub fn peer_quit(&mut self, id: usize, out: &mut Vec<Delivery>, err: Option<&[u8]>)
        requires
            old(self).wf(),
        ensures
            final(self).wf(),
            !final(self).has_client(id),
            out_extended(old(out)@, final(out)@),
            final(self).same_config(old(self)),
            !old(self).has_client(id) ==> final(self).clients == old(self).clients && final(self).nicks == old(self).nicks && final(self).channels == old(self).channels
                && delivery_views(final(out)@) == delivery_views(old(out)@),
            old(self).has_client(id) ==> final(self).clients() == old(self).clients().remove(id)
                && final(self).nicks@ == old(self).nicks@.remove(
                fold(old(self).client(id).nick),
            ) && entry_views(final(self).channels@) == pruned(
                entry_views(old(self).channels@),
                id,
                old(self).channels@.len() as int,
            ) && delivery_views(final(out)@) == delivery_views(old(out)@) + sent_to(
                old(self).clients(),
                notified(
                    old(self).clients(),
                    sharing(entry_views(old(self).channels@), id),
                    id,
                    Audience::Everyone,
                ),
                Self::quit_line(
                    old(self).client(id),
                    match err {
                        Some(e) => Some(e@),
                        None => None,
                    },
                ),
            ) + sent_to(
                old(self).clients(),
                seq![id],
                Self::error_line(
                    match err {
                        Some(e) => e@,
                        None => lines::CLOSING_LINK.spec_bytes(),
                    },
                ),
            ),
    {
        if !self.contains(id) {
            return ;
        }
        match err {
            Some(e) => self.remove_client(id, out, e, Some(e)),
            None => self.remove_client(id, out, lines::CLOSING_LINK.as_bytes(), None),
        }
    }

    /// What `QUIT` does to the state and to the deliveries; `r` is what its
    /// handler returns.
    pub open spec fn quit_outcome(
        before: &Self,
        after: &Self,
        ctx: &CommandContext,
        out_before: Seq<Delivery>,
        out_after: Seq<Delivery>,
        reason: Seq<u8>,
        r: Result<(), ()>,
    ) -> bool {
        &&& (r.is_ok())
        &&& (!after.has_client(ctx.id))
        &&& (after.clients() == before.clients().remove(ctx.id))
        &&& (after.nicks@ == before.nicks@.remove(fold(before.client(ctx.id).nick)))
        &&& (entry_views(after.channels@) == pruned(
                entry_views(before.channels@),
                ctx.id,
                before.channels@.len() as int,
            ))
        &&& (after.same_config(before))
        &&& (delivery_views(out_after) == delivery_views(out_before) + sent_to(
                before.clients(),
                notified(
                    before.clients(),
                    sharing(entry_views(before.channels@), ctx.id),
                    ctx.id,
                    Audience::Everyone,
                ),
                Self::quit_line(before.client(ctx.id), Some(reason)),
            ) + sent_to(before.clients(), seq![ctx.id], Self::error_line(reason)))
    }

    /// `QUIT`: removes the client, with the reason that it gives.
    pub fn cmd_quit(&mut self, ctx: &CommandContext, out: &mut Vec<Delivery>, reason: &[u8]) -> (r:
        HandlerResult)
        requires
            old(self).wf(),
            old(self).has_client(ctx.id),
        ensures
            final(self).wf(),
            out_extended(old(out)@, final(out)@),
            Self::quit_outcome(old(self), final(self), ctx, old(out)@, final(out)@, reason@, r),
    {
        self.remove_client(ctx.id, out, reason, Some(reason));
        Ok(())
    }

    /// What `KILL` does to the state, to the replies and to the
    /// deliveries; `r` is what its handler returns.
    pub open spec fn kill_outcome(
        before: &Self,
        after: &Self,
        ctx: &CommandContext,
        rb_before: &ReplyBuffer,
        rb_after: &ReplyBuffer,
        out_before: Seq<Delivery>,
        out_after: Seq<Delivery>,
        nick: Seq<u8>,
        reason: Seq<u8>,
        r: Result<(), ()>,
    ) -> bool {
        &&& (after.same_config(before))
        &&& (r.is_ok() == (before.client(ctx.id).operator && before.nick_owner(
                nick,
            ).is_some()))
        &&& (r.is_err() ==> after.clients == before.clients && after.nicks == before.nicks && after.channels == before.channels && delivery_views(out_after)
                == delivery_views(out_before) && rb_after.staged() == rb_before.staged().push(
                if !before.client(ctx.id).operator {
                    rb_before.numeric(rpl::ERR_NOPRIVILEGES, seq![], lines::NO_PRIVILEGES.spec_bytes())
                } else {
                    rb_before.numeric(rpl::ERR_NOSUCHNICK, seq![nick], lines::NO_SUCH_NICK.spec_bytes())
                },
            ))
        &&& (r.is_ok() ==> {
                let target = before.nick_owner(nick).unwrap();
                &&& rb_after.staged() == rb_before.staged()
                &&& after.clients() == before.clients().remove(target)
                &&& after.nicks@ == before.nicks@.remove(
                    fold(before.client(target).nick),
                )
                &&& entry_views(after.channels@) == pruned(
                    entry_views(before.channels@),
                    target,
                    before.channels@.len() as int,
                )
                &&& delivery_views(out_after) == delivery_views(out_before) + sent_to(
                    before.clients(),
                    notified(
                        before.clients(),
                        sharing(entry_views(before.channels@), target),
                        target,
                        Audience::Everyone,
                    ),
                    Self::quit_line(before.client(target), Some(reason)),
                ) + sent_to(before.clients(), seq![target], Self::error_line(reason))
            })
    }

    /// `KILL`: an operator removes the client with a nickname.
    pub fn cmd_kill(
        &mut self,
        ctx: &CommandContext,
        rb: &mut ReplyBuffer,
        out: &mut Vec<Delivery>,
        nick: &[u8],
        reason: &[u8],
    ) -> (r: HandlerResult)
        requires
            old(self).wf(),
            old(self).has_client(ctx.id),
            old(rb).wf(),
        ensures
            final(self).wf(),
            final(rb).wf(),
            old(rb).extended_by(final(rb)),
            out_extended(old(out)@, final(out)@),
            Self::kill_outcome(old(self), final(self), ctx, old(rb), final(rb), old(out)@, final(out)@, nick@, reason@, r),
    {
        let operator = match table_get(&self.clients, ctx.id) {
            Some(client) => client.operator,
            None => false,
        };
        if !operator {
            rb.reply0(rpl::ERR_NOPRIVILEGES, lines::NO_PRIVILEGES.as_bytes());
            return Err(());
        }
        let target = match self.find_nick(rb, nick) {
            Some(target) => target,
            None => {
                return Err(());
            },
        };
        self.remove_client(target, out, reason, Some(reason));
        Ok(())
    }

    /// Whether a name and a password are those of an operator.
    pub open spec fn is_oper(&self, name: Seq<u8>, password: Seq<u8>) -> bool {
        exists|i: int|
            0 <= i < self.opers@.len() && (#[trigger] self.opers@[i]).0@ == name
                && self.opers@[i].1@ == password
    }

    /// What `OPER` does to the state and to the replies; `r` is what its
    /// handler returns.
    pub open spec fn oper_outcome(
        before: &Self,
        after: &Self,
        ctx: &CommandContext,
        rb_before: &ReplyBuffer,
        rb_after: &ReplyBuffer,
        name: Seq<u8>,
        password: Seq<u8>,
        r: Result<(), ()>,
    ) -> bool {
        &&& (after.has_client(ctx.id))
        &&& (after.same_but_clients(before))
        &&& (r.is_ok() == before.is_oper(name, password))
        &&& (r.is_ok() ==> after.client(ctx.id) == (ClientView {
                operator: true,
                ..before.client(ctx.id)
            }) && after.clients() == before.clients().insert(
                ctx.id,
                after.clients()[ctx.id],
            ) && rb_after.staged() == rb_before.staged().push(
                rb_before.numeric(rpl::YOUREOPER, seq![], lines::YOURE_OPER.spec_bytes()),
            ))
        &&& (r.is_err() ==> after.clients == before.clients && rb_after.staged() == rb_before.staged().push(
                rb_before.numeric(
                    rpl::ERR_PASSWDMISMATCH,
                    seq![],
                    lines::PASSWORD_MISMATCH.spec_bytes(),
                ),
            ))
    }

    /// `OPER`: makes the client an operator, if it gives the name and the
    /// password of one.
    pub fn cmd_oper(
        &mut self,
        ctx: &CommandContext,
        rb: &mut ReplyBuffer,
        name: &[u8],
        password: &[u8],
    ) -> (r: HandlerResult)
        requires
            old(self).wf(),
            old(self).has_client(ctx.id),
            old(rb).wf(),
        ensures
            final(self).wf(),
            final(rb).wf(),
            old(rb).extended_by(final(rb)),
            Self::oper_outcome(old(self), final(self), ctx, old(rb), final(rb), name@, password@, r),
    {
        let mut found = false;
        let mut i: usize = 0;
        while i < self.opers.len()
            invariant_except_break
                !found,
            invariant
                i <= self.opers@.len(),
                forall|j: int|
                    0 <= j < i ==> !((#[trigger] self.opers@[j]).0@ == name@ && self.opers@[j].1@
                        == password@),
            ensures
                found == self.is_oper(name@, password@),
            decreases self.opers@.len() - i,
        {
            if eq(self.opers[i].0.as_slice(), name) && eq(self.opers[i].1.as_slice(), password) {
                found = true;
                break ;
            }
            i += 1;
        }
        if !found {
            rb.reply0(rpl::ERR_PASSWDMISMATCH, lines::PASSWORD_MISMATCH.as_bytes());
            return Err(());
        }
        let ghost before = *self;
        let client = table_get_mut(&mut self.clients, ctx.id);
        client.operator = true;
        proof {
            Self::lemma_client_changed(&before, self, ctx.id);
        }
        rb.reply0(rpl::YOUREOPER, lines::YOURE_OPER.as_bytes());
        Ok(())
    }

    /// What `AWAY` does to the state and to the replies; `r` is what its
    /// handler returns.
    pub open spec fn away_outcome(
        before: &Self,
        after: &Self,
        ctx: &CommandContext,
        rb_before: &ReplyBuffer,
        rb_after: &ReplyBuffer,
        reason: Seq<u8>,
        r: Result<(), ()>,
    ) -> bool {
        &&& (after.has_client(ctx.id))
        &&& (after.same_but_clients(before))
        &&& (r.is_ok())
        &&& (after.clients() == before.clients().insert(
                ctx.id,
                after.clients()[ctx.id],
            ))
        &&& (after.client(ctx.id) == (ClientView {
                away_message: if reason.len() == 0 {
                    None
                } else {
                    Some(cut(reason, before.awaylen as int))
                },
                ..before.client(ctx.id)
            }))
        &&& (rb_after.staged() == rb_before.staged().push(
                if reason.len() == 0 {
                    rb_before.numeric(rpl::UNAWAY, seq![], lines::UN_AWAY.spec_bytes())
                } else {
                    rb_before.numeric(rpl::NOWAWAY, seq![], lines::NOW_AWAY.spec_bytes())
                },
            ))
    }

    /// `AWAY`: marks the client as away with a message, cut to the length
    /// that the server allows; or, with an empty message, as back.
    pub fn cmd_away(&mut self, ctx: &CommandContext, rb: &mut ReplyBuffer, reason: &[u8]) -> (r:
        HandlerResult)
        requires
            old(self).wf(),
            old(self).has_client(ctx.id),
            old(rb).wf(),
        ensures
            final(self).wf(),
            final(rb).wf(),
            old(rb).extended_by(final(rb)),
            Self::away_outcome(old(self), final(self), ctx, old(rb), final(rb), reason@, r),
    {
        let ghost before = *self;
        let awaylen = self.awaylen;
        let client = table_get_mut(&mut self.clients, ctx.id);
        if reason.len() == 0 {
            client.away_message = None;
        } else {
            client.away_message = Some(truncated(reason, awaylen));
        }
        proof {
            Self::lemma_client_changed(&before, self, ctx.id);
        }
        if reason.len() == 0 {
            rb.reply0(rpl::UNAWAY, lines::UN_AWAY.as_bytes());
        } else {
            rb.reply0(rpl::NOWAWAY, lines::NOW_AWAY.as_bytes());
        }
        Ok(())
    }

    /// What `REHASH` does to the state and to the replies; `r` is what its
    /// handler returns.
    pub open spec fn rehash_outcome(
        before: &Self,
        after: &Self,
        ctx: &CommandContext,
        rb_before: &ReplyBuffer,
        rb_after: &ReplyBuffer,
        r: Result<(), ()>,
    ) -> bool {
        &&& (after.same_config(before))
        &&& (after.clients == before.clients)
        &&& (after.nicks == before.nicks)
        &&& (after.channels == before.channels)
        &&& (r.is_ok() == before.client(ctx.id).operator)
        &&& (after.rehash_requested == (before.rehash_requested || r.is_ok()))
        &&& (rb_after.staged() == rb_before.staged().push(
                if r.is_ok() {
                    rb_before.numeric(rpl::REHASHING, seq![], lines::REHASHING.spec_bytes())
                } else {
                    rb_before.numeric(rpl::ERR_NOPRIVILEGES, seq![], lines::NO_PRIVILEGES.spec_bytes())
                },
            ))
    }

    /// `REHASH`: an operator asks for the configuration to be read again.
    /// The request is noted for the surroundings of the server.
    pub fn cmd_rehash(&mut self, ctx: &CommandContext, rb: &mut ReplyBuffer) -> (r: HandlerResult)
        requires
            old(self).wf(),
            old(self).has_client(ctx.id),
            old(rb).wf(),
        ensures
            final(self).wf(),
            final(rb).wf(),
            old(rb).extended_by(final(rb)),
            Self::rehash_outcome(old(self), final(self), ctx, old(rb), final(rb), r),
    {
        let operator = match table_get(&self.clients, ctx.id) {
            Some(client) => client.operator,
            None => false,
        };
        if !operator {
            rb.reply0(rpl::ERR_NOPRIVILEGES, lines::NO_PRIVILEGES.as_bytes());
            return Err(());
        }
        self.rehash_requested = true;
        rb.reply0(rpl::REHASHING, lines::REHASHING.as_bytes());
        Ok(())
    }
}

} // verus!
