//! The commands by which clients come to channels and leave them.

use vstd::prelude::*;
use vstd::string::StringSliceAdditionalSpecFns;
use crate::auth::Provider;
use crate::buffer::LineView;
use crate::channel::{banned, invited, is_member, member_index, with_member, without_member, ChannelView, Member, Topic, TopicView};
use crate::client::{full_name, ClientView};
use crate::lines;
use crate::message::{command_name, Command};
use crate::reply::ReplyBuffer;
use crate::rpl;
use crate::state::base::channel_index;
use crate::state::rfc2812::{cut, truncated, HandlerResult};
use crate::state::send::{out_extended, plain, plain_line, recipients, sent_to};
use crate::state::{channel_name_ok, delivery_views, valid_channel_name, CommandContext, Delivery, StateInner};
use crate::table::table_get;
use crate::text::{eq, find, fold, slice, to_vec, COMMA};

verus! {

/// Whether a channel has as many members as its limit allows.
pub open spec fn full(ch: ChannelView) -> bool {
    match ch.user_limit {
        Some(limit) => ch.members.len() >= limit,
        None => false,
    }
}

/// Whether a key does not open a channel: the channel has a key, and it
/// is another.
pub open spec fn locked(ch: ChannelView, key: Seq<u8>) -> bool {
    match ch.key {
        Some(k) => k != key,
        None => false,
    }
}

/// The text that goes with the numeric reply that refuses a join.
pub open spec fn join_refusal_text(code: u16) -> Seq<u8> {
    if code == rpl::ERR_NOSUCHCHANNEL {
        lines::NO_SUCH_CHANNEL.spec_bytes()
    } else if code == rpl::ERR_INVITEONLYCHAN {
        lines::INVITE_ONLY_CHAN.spec_bytes()
    } else if code == rpl::ERR_CHANNELISFULL {
        lines::CHANNEL_IS_FULL.spec_bytes()
    } else if code == rpl::ERR_BADCHANKEY {
        lines::BAD_CHAN_KEY.spec_bytes()
    } else {
        lines::BANNED_FROM_CHAN.spec_bytes()
    }
}

/// The numeric reply that keeps a client with this nickname out of a
/// channel, if one does: the channel is invite-only and the nickname not
/// on its invitation list; it is full; the key is wrong; the nickname is
/// banned.
pub open spec fn entry_refusal(ch: ChannelView, nick: Seq<u8>, key: Seq<u8>) -> Option<u16> {
    if !invited(ch, nick) {
        Some(rpl::ERR_INVITEONLYCHAN)
    } else if full(ch) {
        Some(rpl::ERR_CHANNELISFULL)
    } else if locked(ch, key) {
        Some(rpl::ERR_BADCHANKEY)
    } else if banned(ch, nick) {
        Some(rpl::ERR_BANNEDFROMCHAN)
    } else {
        None
    }
}

impl<P: Provider> StateInner<P> {
    /// The numeric reply that refuses the join of a channel, if it is
    /// refused: the name is none of a channel, or the channel exists and
    /// keeps the client out.  A member is not refused.
    pub open spec fn join_refusal(&self, id: usize, name: Seq<u8>, key: Seq<u8>) -> Option<u16> {
        if !valid_channel_name(name, self.channellen as int) {
            Some(rpl::ERR_NOSUCHCHANNEL)
        } else {
            let at = channel_index(self.channels@, fold(name));
            if 0 <= at < self.channels@.len() && !is_member(self.channels@[at].chan@.members, id) {
                entry_refusal(self.channels@[at].chan@, self.client(id).nick, key)
            } else {
                None
            }
        }
    }

    /// The line that tells of something that a client does on a channel.
    pub open spec fn channel_line(
        c: ClientView,
        command: Command,
        name: Seq<u8>,
        more: Seq<Seq<u8>>,
        text: Option<Seq<u8>>,
    ) -> LineView {
        plain(full_name(c), command_name(command), seq![name] + more, text)
    }

    /// What the join of one channel does.  Where it is refused, the
    /// client is told why and nothing else happens.  Where the client is a
    /// member already, nothing happens.  Else the client becomes a member
    /// of the channel, which is made with the modes of new channels if it
    /// does not exist; every member, the new one too, is told of the join;
    /// and the new member is sent the topic and the names of the members.
    pub open spec fn join_outcome(
        before: &Self,
        after: &Self,
        rb_before: &ReplyBuffer,
        rb_after: &ReplyBuffer,
        out_before: Seq<Delivery>,
        out_after: Seq<Delivery>,
        id: usize,
        name: Seq<u8>,
        key: Seq<u8>,
        joined: bool,
    ) -> bool {
        let at = channel_index(before.channels@, fold(name));
        let exists_already = 0 <= at < before.channels@.len();
        match before.join_refusal(id, name, key) {
            Some(code) => {
                &&& !joined
                &&& after.channels == before.channels
                &&& delivery_views(out_after) == delivery_views(out_before)
                &&& rb_after.staged() == rb_before.staged().push(
                    rb_before.numeric(code, seq![name], join_refusal_text(code)),
                )
            },
            None => if exists_already && is_member(before.channels@[at].chan@.members, id) {
                &&& !joined
                &&& after.channels == before.channels
                &&& delivery_views(out_after) == delivery_views(out_before)
                &&& rb_after.staged() == rb_before.staged()
            } else {
                &&& joined
                &&& after.channels@.len() == (if exists_already {
                    before.channels@.len()
                } else {
                    before.channels@.len() + 1
                })
                &&& forall|i: int|
                    0 <= i < before.channels@.len() && i != at ==> #[trigger] after.channels@[i]
                        == before.channels@[i]
                &&& after.channels@[at].key@ == fold(name)
                &&& after.channels@[at].chan@ == (ChannelView {
                    members: with_member(
                        if exists_already {
                            before.channels@[at].chan@.members
                        } else {
                            Seq::<Member>::empty()
                        },
                        id,
                    ),
                    ..(if exists_already {
                        before.channels@[at].chan@
                    } else {
                        crate::channel::apply_all(
                            crate::channel::empty_channel(),
                            crate::modes::channel_changes(
                                before.default_chan_mode@,
                                0,
                                true,
                                Seq::<Seq<u8>>::empty(),
                                0,
                            ),
                        )
                    })
                })
                &&& delivery_views(out_after) == delivery_views(out_before) + sent_to(
                    before.clients(),
                    recipients(
                        before.clients(),
                        after.channels@[at].chan@.members,
                        Command::Join,
                        None,
                    ),
                    Self::channel_line(before.client(id), Command::Join, name, seq![], None),
                )
                &&& rb_after.staged() == rb_before.staged() + Self::topic_replies(
                    rb_before.head(),
                    after.channels@[at].chan@,
                    name,
                    false,
                ) + after.names_replies(rb_before.head(), id, name)
            },
        }
    }

    /// Makes the client a member of one channel, which is made if it does
    /// not exist.  Every member, the new one too, is told of the join, and
    /// the new member is sent the topic and the names of the members.
    /// Returns whether the client has joined.
    pub fn join_one(
        &mut self,
        ctx: &CommandContext,
        rb: &mut ReplyBuffer,
        out: &mut Vec<Delivery>,
        name: &[u8],
        key: &[u8],
    ) -> (joined: bool)
        requires
            old(self).wf(),
            old(self).has_client(ctx.id),
            old(self).client(ctx.id).state.registered,
            old(rb).wf(),
        ensures
            final(self).wf(),
            final(rb).wf(),
            old(rb).extended_by(final(rb)),
            out_extended(old(out)@, final(out)@),
            final(self).same_but_channels(old(self)),
            Self::join_outcome(
                old(self),
                final(self),
                old(rb),
                final(rb),
                old(out)@,
                final(out)@,
                ctx.id,
                name@,
                key@,
                joined,
            ),
    {
        if !channel_name_ok(name, self.channellen) {
            rb.reply1(rpl::ERR_NOSUCHCHANNEL, name, lines::NO_SUCH_CHANNEL.as_bytes());
            return false;
        }
        let (nick, full) = match table_get(&self.clients, ctx.id) {
            Some(client) => (to_vec(client.nick.as_slice()), client.full_name()),
            None => (Vec::new(), Vec::new()),
        };
        let at = self.channel_position(name);
        if at < self.channels.len() {
            let chan = &self.channels[at].chan;
            if chan.has_member(ctx.id) {
                assert(rb.staged() =~= old(rb).staged());
                return false;
            }
            if !chan.is_invited(nick.as_slice()) {
                rb.reply1(rpl::ERR_INVITEONLYCHAN, name, lines::INVITE_ONLY_CHAN.as_bytes());
                return false;
            }
            let is_full = match chan.user_limit {
                Some(limit) => chan.members.len() >= limit,
                None => false,
            };
            if is_full {
                rb.reply1(rpl::ERR_CHANNELISFULL, name, lines::CHANNEL_IS_FULL.as_bytes());
                return false;
            }
            let is_locked = match &chan.key {
                Some(k) => !eq(k.as_slice(), key),
                None => false,
            };
            if is_locked {
                rb.reply1(rpl::ERR_BADCHANKEY, name, lines::BAD_CHAN_KEY.as_bytes());
                return false;
            }
            if chan.is_banned(nick.as_slice()) {
                rb.reply1(rpl::ERR_BANNEDFROMCHAN, name, lines::BANNED_FROM_CHAN.as_bytes());
                return false;
            }
            self.add_to_channel(at, ctx.id);
        } else {
            self.create_channel(name, ctx.id);
        }
        let mut params: Vec<Vec<u8>> = Vec::new();
        params.push(to_vec(name));
        assert(crate::text::views(params@) =~= seq![name@] + Seq::<Seq<u8>>::empty());
        let command = Command::Join.name();
        let line = plain_line(full.as_slice(), command.as_slice(), &params, None);
        self.broadcast(out, at, &line, Command::Join, None);
        self.send_topic(rb, at, name, false);
        self.send_names(ctx.id, rb, name);
        proof {
            assert(rb.staged() =~= old(rb).staged() + Self::topic_replies(
                old(rb).head(),
                self.channels@[at as int].chan@,
                name@,
                false,
            ) + self.names_replies(old(rb).head(), ctx.id, name@));
        }
        true
    }

    /// Whether nothing has happened between two states, two buffers of
    /// replies and two lists of deliveries.
    pub open spec fn nothing_done(
        before: &Self,
        after: &Self,
        rb_before: &ReplyBuffer,
        rb_after: &ReplyBuffer,
        out_before: Seq<Delivery>,
        out_after: Seq<Delivery>,
    ) -> bool {
        &&& after.channels == before.channels
        &&& rb_after.staged() == rb_before.staged()
        &&& delivery_views(out_after) == delivery_views(out_before)
    }

    /// Where the next key starts in a list of keys, behind the key that
    /// starts at `j`.
    pub open spec fn next_key(keys: Seq<u8>, j: int) -> int {
        let key_end = crate::text::position(keys, j, COMMA);
        if key_end < keys.len() {
            key_end + 1
        } else {
            keys.len() as int
        }
    }

    /// What dealing with the name that starts at `i` in a list of names
    /// does: the join of the channel of that name, with the key that
    /// starts at `j` in the list of keys; nothing for an empty name.  All
    /// but the channels and the replies stays as it is.
    pub open spec fn join_step(
        before: &Self,
        after: &Self,
        rb_before: &ReplyBuffer,
        rb_after: &ReplyBuffer,
        out_before: Seq<Delivery>,
        out_after: Seq<Delivery>,
        id: usize,
        targets: Seq<u8>,
        i: int,
        keys: Seq<u8>,
        j: int,
        joined: bool,
    ) -> bool {
        let end = crate::text::position(targets, i, COMMA);
        let key_end = crate::text::position(keys, j, COMMA);
        &&& after.same_but_channels(before)
        &&& rb_after.head() == rb_before.head()
        &&& if end > i {
            Self::join_outcome(
                before,
                after,
                rb_before,
                rb_after,
                out_before,
                out_after,
                id,
                targets.subrange(i, end),
                keys.subrange(j, key_end),
                joined,
            )
        } else {
            Self::nothing_done(before, after, rb_before, rb_after, out_before, out_after)
        }
    }

    /// What dealing with the names from `i` on in a list of names does:
    /// one name after the other is dealt with as `join_step` says, each
    /// with the key at its place in the list of keys, and each in the state
    /// that the names before it have left.
    pub open spec fn joins_from(
        before: &Self,
        after: &Self,
        rb_before: &ReplyBuffer,
        rb_after: &ReplyBuffer,
        out_before: Seq<Delivery>,
        out_after: Seq<Delivery>,
        id: usize,
        targets: Seq<u8>,
        i: int,
        keys: Seq<u8>,
        j: int,
    ) -> bool
        decreases targets.len() - i,
    {
        if i < 0 || i >= targets.len() {
            Self::nothing_done(before, after, rb_before, rb_after, out_before, out_after)
        } else {
            let end = crate::text::position(targets, i, COMMA);
            exists|middle: Self, rb_middle: ReplyBuffer, out_middle: Seq<Delivery>, joined: bool|
                {
                    &&& #[trigger] Self::join_step(
                        before,
                        &middle,
                        rb_before,
                        &rb_middle,
                        out_before,
                        out_middle,
                        id,
                        targets,
                        i,
                        keys,
                        j,
                        joined,
                    )
                    &&& if i <= end < targets.len() {
                        Self::joins_from(
                            &middle,
                            after,
                            &rb_middle,
                            rb_after,
                            out_middle,
                            out_after,
                            id,
                            targets,
                            end + 1,
                            keys,
                            Self::next_key(keys, j),
                        )
                    } else {
                        Self::nothing_done(
                            &middle,
                            after,
                            &rb_middle,
                            rb_after,
                            out_middle,
                            out_after,
                        )
                    }
                }
        }
    }

    /// `JOIN`: the channels of a list of names parted by commas, each with
    /// the key at its place in a list of keys.  Each channel is dealt with
    /// on its own, as `join_outcome` says: one that refuses the client does
    /// not keep it from the others.
    pub fn cmd_join(
        &mut self,
        ctx: &CommandContext,
        rb: &mut ReplyBuffer,
        out: &mut Vec<Delivery>,
        targets: &[u8],
        keys: &[u8],
    ) -> (r: HandlerResult)
        requires
            old(self).wf(),
            old(self).has_client(ctx.id),
            old(self).client(ctx.id).state.registered,
            old(rb).wf(),
        ensures
            final(self).wf(),
            final(rb).wf(),
            old(rb).extended_by(final(rb)),
            out_extended(old(out)@, final(out)@),
            final(self).same_but_channels(old(self)),
            r.is_ok(),
            Self::joins_from(
                old(self),
                final(self),
                old(rb),
                final(rb),
                old(out)@,
                final(out)@,
                ctx.id,
                targets@,
                0,
                keys@,
                0,
            ),
    {
        let mut i: usize = 0;
        let mut j: usize = 0;
        while i < targets.len()
            invariant_except_break
                forall|last: Self, rb_last: ReplyBuffer, out_last: Seq<Delivery>|
                    Self::joins_from(
                        self,
                        &last,
                        rb,
                        &rb_last,
                        out@,
                        out_last,
                        ctx.id,
                        targets@,
                        i as int,
                        keys@,
                        j as int,
                    ) ==> #[trigger] Self::joins_from(
                        old(self),
                        &last,
                        old(rb),
                        &rb_last,
                        old(out)@,
                        out_last,
                        ctx.id,
                        targets@,
                        0,
                        keys@,
                        0,
                    ),
            invariant
                i <= targets.len(),
                j <= keys.len(),
                self.wf(),
                self.has_client(ctx.id),
                self.client(ctx.id).state.registered,
                self.same_but_channels(old(self)),
                rb.wf(),
                old(rb).extended_by(rb),
                out_extended(old(out)@, out@),
            ensures
                Self::joins_from(
                    old(self),
                    self,
                    old(rb),
                    rb,
                    old(out)@,
                    out@,
                    ctx.id,
                    targets@,
                    0,
                    keys@,
                    0,
                ),
            decreases targets.len() - i,
        {
            let ghost start = *self;
            let ghost rb_start = *rb;
            let ghost out_start = out@;
            let ghost i0 = i as int;
            let ghost j0 = j as int;
            let end = find(targets, i, COMMA);
            let key_end = find(keys, j, COMMA);
            let key = slice(keys, j, key_end);
            let ghost mut joined = false;
            if end > i {
                let name = slice(targets, i, end);
                let did = self.join_one(ctx, rb, out, name.as_slice(), key.as_slice());
                proof {
                    joined = did;
                }
            }
            j = if key_end < keys.len() {
                key_end + 1
            } else {
                keys.len()
            };
            proof {
                assert(Self::join_step(
                    &start,
                    self,
                    &rb_start,
                    rb,
                    out_start,
                    out@,
                    ctx.id,
                    targets@,
                    i0,
                    keys@,
                    j0,
                    joined,
                ));
                let step = *self;
                let rb_step = *rb;
                let out_step = out@;
                assert forall|last: Self, rb_last: ReplyBuffer, out_last: Seq<Delivery>|
                    (if end < targets.len() {
                        Self::joins_from(
                            &step,
                            &last,
                            &rb_step,
                            &rb_last,
                            out_step,
                            out_last,
                            ctx.id,
                            targets@,
                            end + 1,
                            keys@,
                            j as int,
                        )
                    } else {
                        Self::nothing_done(&step, &last, &rb_step, &rb_last, out_step, out_last)
                    }) implies #[trigger] Self::joins_from(
                    old(self),
                    &last,
                    old(rb),
                    &rb_last,
                    old(out)@,
                    out_last,
                    ctx.id,
                    targets@,
                    0,
                    keys@,
                    0,
                ) by {
                    assert(Self::join_step(
                        &start,
                        &step,
                        &rb_start,
                        &rb_step,
                        out_start,
                        out_step,
                        ctx.id,
                        targets@,
                        i0,
                        keys@,
                        j0,
                        joined,
                    ));
                    assert(Self::joins_from(
                        &start,
                        &last,
                        &rb_start,
                        &rb_last,
                        out_start,
                        out_last,
                        ctx.id,
                        targets@,
                        i0,
                        keys@,
                        j0,
                    ));
                }
            }
            if end >= targets.len() {
                proof {
                    assert(Self::nothing_done(self, self, rb, rb, out@, out@));
                }
                break ;
            }
            i = end + 1;
        }
        Ok(())
    }

    /// The numeric reply that refuses a client that asks to leave a
    /// channel: there is no such channel, or the client is no member.
    pub open spec fn part_refusal(&self, id: usize, name: Seq<u8>) -> Option<u16> {
        let at = channel_index(self.channels@, fold(name));
        if !(0 <= at < self.channels@.len()) {
            Some(rpl::ERR_NOSUCHCHANNEL)
        } else if !is_member(self.channels@[at].chan@.members, id) {
            Some(rpl::ERR_NOTONCHANNEL)
        } else {
            None
        }
    }

    /// What leaving one channel does.  Where it is refused, the client is
    /// told why and nothing else happens.  Else every member, the leaving
    /// one too, is told of it, with the reason where one is given; the
    /// client is a member no more; and the channel is dropped if it is
    /// left without members.
    pub open spec fn part_outcome(
        before: &Self,
        after: &Self,
        rb_before: &ReplyBuffer,
        rb_after: &ReplyBuffer,
        out_before: Seq<Delivery>,
        out_after: Seq<Delivery>,
        id: usize,
        name: Seq<u8>,
        reason: Seq<u8>,
        left: bool,
    ) -> bool {
        &&& left == before.part_refusal(id, name).is_none()
        &&& match before.part_refusal(id, name) {
            Some(code) => {
                &&& after.channels == before.channels
                &&& delivery_views(out_after) == delivery_views(out_before)
                &&& rb_after.staged() == rb_before.staged().push(
                    Self::channel_refusal(rb_before, code, name, seq![]),
                )
            },
            None => {
                let at = channel_index(before.channels@, fold(name));
                let members = before.channels@[at].chan@.members;
                &&& rb_after.staged() == rb_before.staged()
                &&& delivery_views(out_after) == delivery_views(out_before) + sent_to(
                    before.clients(),
                    recipients(before.clients(), members, Command::Part, None),
                    Self::channel_line(
                        before.client(id),
                        Command::Part,
                        name,
                        seq![],
                        if reason.len() == 0 {
                            None
                        } else {
                            Some(reason)
                        },
                    ),
                )
                &&& without_member(members, id).len() == 0 ==> after.channels@
                    == before.channels@.remove(at)
                &&& without_member(members, id).len() > 0 ==> after.channels@.len()
                    == before.channels@.len() && (forall|i: int|
                    0 <= i < before.channels@.len() && i != at ==> #[trigger] after.channels@[i]
                        == before.channels@[i]) && after.channels@[at].key@
                    == before.channels@[at].key@ && after.channels@[at].chan@ == (ChannelView {
                    members: without_member(members, id),
                    ..before.channels@[at].chan@
                })
            },
        }
    }

    /// Takes the client out of one channel.  Every member, the leaving one
    /// too, is told of it; a channel that is left without members is
    /// dropped.  Returns whether the client has left.
    pub fn part_one(
        &mut self,
        ctx: &CommandContext,
        rb: &mut ReplyBuffer,
        out: &mut Vec<Delivery>,
        name: &[u8],
        reason: &[u8],
    ) -> (left: bool)
        requires
            old(self).wf(),
            old(self).has_client(ctx.id),
            old(rb).wf(),
        ensures
            final(self).wf(),
            final(rb).wf(),
            old(rb).extended_by(final(rb)),
            out_extended(old(out)@, final(out)@),
            final(self).same_but_channels(old(self)),
            Self::part_outcome(
                old(self),
                final(self),
                old(rb),
                final(rb),
                old(out)@,
                final(out)@,
                ctx.id,
                name@,
                reason@,
                left,
            ),
    {
        let at = match self.find_channel(rb, name) {
            Some(at) => at,
            None => {
                return false;
            },
        };
        if Self::find_member(ctx.id, rb, &self.channels[at].chan, name).is_none() {
            return false;
        }
        let full = match table_get(&self.clients, ctx.id) {
            Some(client) => client.full_name(),
            None => Vec::new(),
        };
        let mut params: Vec<Vec<u8>> = Vec::new();
        params.push(to_vec(name));
        assert(crate::text::views(params@) =~= seq![name@] + Seq::<Seq<u8>>::empty());
        let command = Command::Part.name();
        let text = if reason.len() == 0 {
            None
        } else {
            Some(reason)
        };
        let line = plain_line(full.as_slice(), command.as_slice(), &params, text);
        self.broadcast(out, at, &line, Command::Part, None);
        self.remove_from_channel(at, ctx.id);
        assert(rb.staged() =~= old(rb).staged());
        true
    }

    /// What dealing with the name that starts at `i` in a list of names
    /// does: the client leaves the channel of that name; nothing for an
    /// empty name.  All but the channels and the replies stays as it is.
    pub open spec fn part_step(
        before: &Self,
        after: &Self,
        rb_before: &ReplyBuffer,
        rb_after: &ReplyBuffer,
        out_before: Seq<Delivery>,
        out_after: Seq<Delivery>,
        id: usize,
        targets: Seq<u8>,
        i: int,
        reason: Seq<u8>,
        left: bool,
    ) -> bool {
        let end = crate::text::position(targets, i, COMMA);
        &&& after.same_but_channels(before)
        &&& rb_after.head() == rb_before.head()
        &&& if end > i {
            Self::part_outcome(
                before,
                after,
                rb_before,
                rb_after,
                out_before,
                out_after,
                id,
                targets.subrange(i, end),
                reason,
                left,
            )
        } else {
            Self::nothing_done(before, after, rb_before, rb_after, out_before, out_after)
        }
    }

    /// What dealing with the names from `i` on in a list of names does:
    /// one name after the other is dealt with as `part_step` says, each in
    /// the state that the names before it have left.
    pub open spec fn parts_from(
        before: &Self,
        after: &Self,
        rb_before: &ReplyBuffer,
        rb_after: &ReplyBuffer,
        out_before: Seq<Delivery>,
        out_after: Seq<Delivery>,
        id: usize,
        targets: Seq<u8>,
        i: int,
        reason: Seq<u8>,
    ) -> bool
        decreases targets.len() - i,
    {
        if i < 0 || i >= targets.len() {
            Self::nothing_done(before, after, rb_before, rb_after, out_before, out_after)
        } else {
            let end = crate::text::position(targets, i, COMMA);
            exists|middle: Self, rb_middle: ReplyBuffer, out_middle: Seq<Delivery>, left: bool|
                {
                    &&& #[trigger] Self::part_step(
                        before,
                        &middle,
                        rb_before,
                        &rb_middle,
                        out_before,
                        out_middle,
                        id,
                        targets,
                        i,
                        reason,
                        left,
                    )
                    &&& if i <= end < targets.len() {
                        Self::parts_from(
                            &middle,
                            after,
                            &rb_middle,
                            rb_after,
                            out_middle,
                            out_after,
                            id,
                            targets,
                            end + 1,
                            reason,
                        )
                    } else {
                        Self::nothing_done(
                            &middle,
                            after,
                            &rb_middle,
                            rb_after,
                            out_middle,
                            out_after,
                        )
                    }
                }
        }
    }

    /// `PART`: leaves the channels of a list of names parted by commas.
    /// Each channel is dealt with on its own, as `part_outcome` says, and
    /// each with the same reason.
    pub fn cmd_part(
        &mut self,
        ctx: &CommandContext,
        rb: &mut ReplyBuffer,
        out: &mut Vec<Delivery>,
        targets: &[u8],
        reason: &[u8],
    ) -> (r: HandlerResult)
        requires
            old(self).wf(),
            old(self).has_client(ctx.id),
            old(rb).wf(),
        ensures
            final(self).wf(),
            final(rb).wf(),
            old(rb).extended_by(final(rb)),
            out_extended(old(out)@, final(out)@),
            final(self).same_but_channels(old(self)),
            r.is_ok(),
            Self::parts_from(
                old(self),
                final(self),
                old(rb),
                final(rb),
                old(out)@,
                final(out)@,
                ctx.id,
                targets@,
                0,
                reason@,
            ),
    {
        let mut i: usize = 0;
        while i < targets.len()
            invariant_except_break
                forall|last: Self, rb_last: ReplyBuffer, out_last: Seq<Delivery>|
                    Self::parts_from(
                        self,
                        &last,
                        rb,
                        &rb_last,
                        out@,
                        out_last,
                        ctx.id,
                        targets@,
                        i as int,
                        reason@,
                    ) ==> #[trigger] Self::parts_from(
                        old(self),
                        &last,
                        old(rb),
                        &rb_last,
                        old(out)@,
                        out_last,
                        ctx.id,
                        targets@,
                        0,
                        reason@,
                    ),
            invariant
                i <= targets.len(),
                self.wf(),
                self.has_client(ctx.id),
                self.same_but_channels(old(self)),
                rb.wf(),
                old(rb).extended_by(rb),
                out_extended(old(out)@, out@),
            ensures
                Self::parts_from(
                    old(self),
                    self,
                    old(rb),
                    rb,
                    old(out)@,
                    out@,
                    ctx.id,
                    targets@,
                    0,
                    reason@,
                ),
            decreases targets.len() - i,
        {
            let ghost start = *self;
            let ghost rb_start = *rb;
            let ghost out_start = out@;
            let ghost i0 = i as int;
            let end = find(targets, i, COMMA);
            let ghost mut left = false;
            if end > i {
                let name = slice(targets, i, end);
                let did = self.part_one(ctx, rb, out, name.as_slice(), reason);
                proof {
                    left = did;
                }
            }
            proof {
                assert(Self::part_step(
                    &start,
                    self,
                    &rb_start,
                    rb,
                    out_start,
                    out@,
                    ctx.id,
                    targets@,
                    i0,
                    reason@,
                    left,
                ));
                let step = *self;
                let rb_step = *rb;
                let out_step = out@;
                assert forall|last: Self, rb_last: ReplyBuffer, out_last: Seq<Delivery>|
                    (if end < targets.len() {
                        Self::parts_from(
                            &step,
                            &last,
                            &rb_step,
                            &rb_last,
                            out_step,
                            out_last,
                            ctx.id,
                            targets@,
                            end + 1,
                            reason@,
                        )
                    } else {
                        Self::nothing_done(&step, &last, &rb_step, &rb_last, out_step, out_last)
                    }) implies #[trigger] Self::parts_from(
                    old(self),
                    &last,
                    old(rb),
                    &rb_last,
                    old(out)@,
                    out_last,
                    ctx.id,
                    targets@,
                    0,
                    reason@,
                ) by {
                    assert(Self::part_step(
                        &start,
                        &step,
                        &rb_start,
                        &rb_step,
                        out_start,
                        out_step,
                        ctx.id,
                        targets@,
                        i0,
                        reason@,
                        left,
                    ));
                    assert(Self::parts_from(
                        &start,
                        &last,
                        &rb_start,
                        &rb_last,
                        out_start,
                        out_last,
                        ctx.id,
                        targets@,
                        i0,
                        reason@,
                    ));
                }
            }
            if end >= targets.len() {
                proof {
                    assert(Self::nothing_done(self, self, rb, rb, out@, out@));
                }
                break ;
            }
            i = end + 1;
        }
        Ok(())
    }

    /// The numeric reply that refuses a kick, if it is refused: there is no
    /// such channel; the client is no member of it, or no operator; or no
    /// member has the nickname.
    pub open spec fn kick_refusal(&self, id: usize, name: Seq<u8>, nick: Seq<u8>) -> Option<u16> {
        let at = channel_index(self.channels@, fold(name));
        if !(0 <= at < self.channels@.len()) {
            Some(rpl::ERR_NOSUCHCHANNEL)
        } else {
            let members = self.channels@[at].chan@.members;
            if !is_member(members, id) {
                Some(rpl::ERR_NOTONCHANNEL)
            } else if !members[member_index(members, id)].modes.operator {
                Some(rpl::ERR_CHANOPRIVSNEEDED)
            } else if !self.nicks@.dom().contains(fold(nick)) || !is_member(
                members,
                self.nicks@[fold(nick)],
            ) {
                Some(rpl::ERR_USERNOTINCHANNEL)
            } else {
                None
            }
        }
    }

    /// The reply that refuses something that a client asks of a channel.
    pub open spec fn channel_refusal(rb: &ReplyBuffer, code: u16, name: Seq<u8>, nick: Seq<u8>) -> LineView {
        if code == rpl::ERR_NOSUCHCHANNEL {
            rb.numeric(code, seq![name], lines::NO_SUCH_CHANNEL.spec_bytes())
        } else if code == rpl::ERR_NOTONCHANNEL {
            rb.numeric(code, seq![name], lines::NOT_ON_CHANNEL.spec_bytes())
        } else if code == rpl::ERR_CHANOPRIVSNEEDED {
            rb.numeric(code, seq![name], lines::CHAN_O_PRIVS_NEEDED.spec_bytes())
        } else if code == rpl::ERR_USERNOTINCHANNEL {
            rb.numeric(code, seq![nick, name], lines::USER_NOT_IN_CHANNEL.spec_bytes())
        } else if code == rpl::ERR_USERONCHANNEL {
            rb.numeric(code, seq![nick, name], lines::USER_ON_CHANNEL.spec_bytes())
        } else {
            rb.numeric(code, seq![nick], lines::NO_SUCH_NICK.spec_bytes())
        }
    }

    /// What `KICK` does to the state, to the replies and to the
    /// deliveries; `r` is what its handler returns.
    pub open spec fn kick_outcome(
        before: &Self,
        after: &Self,
        ctx: &CommandContext,
        rb_before: &ReplyBuffer,
        rb_after: &ReplyBuffer,
        out_before: Seq<Delivery>,
        out_after: Seq<Delivery>,
        name: Seq<u8>,
        nick: Seq<u8>,
        reason: Seq<u8>,
        r: Result<(), ()>,
    ) -> bool {
        &&& (after.same_but_channels(before))
        &&& (r.is_ok() == before.kick_refusal(ctx.id, name, nick).is_none())
        &&& (match before.kick_refusal(ctx.id, name, nick) {
                Some(code) => after.channels == before.channels && delivery_views(
                    out_after,
                ) == delivery_views(out_before) && rb_after.staged() == rb_before.staged().push(
                    Self::channel_refusal(rb_before, code, name, nick),
                ),
                None => {
                    let at = channel_index(before.channels@, fold(name));
                    let members = before.channels@[at].chan@.members;
                    let target = before.nicks@[fold(nick)];
                    &&& rb_after.staged() == rb_before.staged()
                    &&& delivery_views(out_after) == delivery_views(out_before) + sent_to(
                        before.clients(),
                        recipients(before.clients(), members, Command::Kick, None),
                        Self::channel_line(
                            before.client(ctx.id),
                            Command::Kick,
                            name,
                            seq![nick],
                            Some(cut(reason, before.kicklen as int)),
                        ),
                    )
                    &&& without_member(members, target).len() == 0 ==> after.channels@
                        == before.channels@.remove(at)
                    &&& without_member(members, target).len() > 0 ==> after.channels@.len()
                        == before.channels@.len() && after.channels@[at].chan@.members
                        == without_member(members, target)
                },
            })
    }

    /// `KICK`: an operator of a channel puts a member out.  Every member,
    /// the one put out too, is told of it; a channel that is left without
    /// members is dropped.
    pub fn cmd_kick(
        &mut self,
        ctx: &CommandContext,
        rb: &mut ReplyBuffer,
        out: &mut Vec<Delivery>,
        name: &[u8],
        nick: &[u8],
        reason: &[u8],
    ) -> (r: HandlerResult)
        requires
            old(self).wf(),
            old(self).has_client(ctx.id),
            old(rb).wf(),
        ensures
            final(self).wf(),
            final(rb).wf(),
            old(rb).extended_by(final(rb)),
            out_extended(old(out)@, final(out)@),
            Self::kick_outcome(old(self), final(self), ctx, old(rb), final(rb), old(out)@, final(out)@, name@, nick@, reason@, r),
    {
        let at = match self.find_channel(rb, name) {
            Some(at) => at,
            None => {
                return Err(());
            },
        };
        let modes = match Self::find_member(ctx.id, rb, &self.channels[at].chan, name) {
            Some(modes) => modes,
            None => {
                return Err(());
            },
        };
        if !modes.operator {
            rb.reply1(rpl::ERR_CHANOPRIVSNEEDED, name, lines::CHAN_O_PRIVS_NEEDED.as_bytes());
            return Err(());
        }
        let key = crate::text::folded(nick);
        let target = match self.nicks.get(key.as_slice()) {
            Some(target) => if self.channels[at].chan.has_member(target) {
                Some(target)
            } else {
                None
            },
            None => None,
        };
        let target = match target {
            Some(target) => target,
            None => {
                rb.reply2(rpl::ERR_USERNOTINCHANNEL, nick, name, lines::USER_NOT_IN_CHANNEL.as_bytes());
                return Err(());
            },
        };
        let full = match table_get(&self.clients, ctx.id) {
            Some(client) => client.full_name(),
            None => Vec::new(),
        };
        let mut params: Vec<Vec<u8>> = Vec::new();
        params.push(to_vec(name));
        params.push(to_vec(nick));
        assert(crate::text::views(params@) =~= seq![name@] + seq![nick@]);
        let command = Command::Kick.name();
        let text = truncated(reason, self.kicklen);
        let line = plain_line(full.as_slice(), command.as_slice(), &params, Some(text.as_slice()));
        self.broadcast(out, at, &line, Command::Kick, None);
        self.remove_from_channel(at, target);
        assert(rb.staged() =~= old(rb).staged());
        Ok(())
    }

    /// The numeric reply that refuses an invitation, if it is refused:
    /// no registered client has the nickname; there is no such channel; the
    /// client that invites is no member of it, or no operator where the
    /// channel is invite-only; or the invited client is a member already.
    pub open spec fn invite_refusal(&self, id: usize, nick: Seq<u8>, name: Seq<u8>) -> Option<u16> {
        let at = channel_index(self.channels@, fold(name));
        if self.nick_owner(nick).is_none() {
            Some(rpl::ERR_NOSUCHNICK)
        } else if !(0 <= at < self.channels@.len()) {
            Some(rpl::ERR_NOSUCHCHANNEL)
        } else {
            let ch = self.channels@[at].chan@;
            if !is_member(ch.members, id) {
                Some(rpl::ERR_NOTONCHANNEL)
            } else if ch.invite_only && !ch.members[member_index(ch.members, id)].modes.operator {
                Some(rpl::ERR_CHANOPRIVSNEEDED)
            } else if is_member(ch.members, self.nick_owner(nick).unwrap()) {
                Some(rpl::ERR_USERONCHANNEL)
            } else {
                None
            }
        }
    }

    /// What `INVITE` does to the state, to the replies and to the
    /// deliveries; `r` is what its handler returns.
    pub open spec fn invite_outcome(
        before: &Self,
        after: &Self,
        ctx: &CommandContext,
        rb_before: &ReplyBuffer,
        rb_after: &ReplyBuffer,
        out_before: Seq<Delivery>,
        out_after: Seq<Delivery>,
        nick: Seq<u8>,
        name: Seq<u8>,
        r: Result<(), ()>,
    ) -> bool {
        &&& (after.same_but_channels(before))
        &&& (after.channels@.len() == before.channels@.len())
        &&& (r.is_ok() == before.invite_refusal(ctx.id, nick, name).is_none())
        &&& (match before.invite_refusal(ctx.id, nick, name) {
                Some(code) => after.channels == before.channels && delivery_views(
                    out_after,
                ) == delivery_views(out_before) && rb_after.staged() == rb_before.staged().push(
                    Self::channel_refusal(rb_before, code, name, nick),
                ),
                None => {
                    let at = channel_index(before.channels@, fold(name));
                    &&& after.channels@[at].chan@ == (ChannelView {
                        invitation_mask: crate::text::list_insert(
                            before.channels@[at].chan@.invitation_mask,
                            nick,
                        ),
                        ..before.channels@[at].chan@
                    })
                    &&& forall|i: int|
                        0 <= i < before.channels@.len() && i != at ==> #[trigger] after.channels@[i] == before.channels@[i]
                    &&& rb_after.staged() == rb_before.staged().push(
                        rb_before.numeric_bare(rpl::INVITING, seq![nick, name]),
                    )
                    &&& delivery_views(out_after) == delivery_views(out_before) + sent_to(
                        before.clients(),
                        seq![before.nick_owner(nick).unwrap()],
                        plain(
                            full_name(before.client(ctx.id)),
                            command_name(Command::Invite),
                            seq![nick, name],
                            None,
                        ),
                    )
                },
            })
    }

    /// `INVITE`: a member of a channel puts the nickname of a client on
    /// its invitation list, and the client is told.  On an invite-only
    /// channel only an operator may.
    pub fn cmd_invite(
        &mut self,
        ctx: &CommandContext,
        rb: &mut ReplyBuffer,
        out: &mut Vec<Delivery>,
        nick: &[u8],
        name: &[u8],
    ) -> (r: HandlerResult)
        requires
            old(self).wf(),
            old(self).has_client(ctx.id),
            old(rb).wf(),
        ensures
            final(self).wf(),
            final(rb).wf(),
            old(rb).extended_by(final(rb)),
            out_extended(old(out)@, final(out)@),
            Self::invite_outcome(old(self), final(self), ctx, old(rb), final(rb), old(out)@, final(out)@, nick@, name@, r),
    {
        let target = match self.find_nick(rb, nick) {
            Some(target) => target,
            None => {
                return Err(());
            },
        };
        let at = match self.find_channel(rb, name) {
            Some(at) => at,
            None => {
                return Err(());
            },
        };
        let modes = match Self::find_member(ctx.id, rb, &self.channels[at].chan, name) {
            Some(modes) => modes,
            None => {
                return Err(());
            },
        };
        if self.channels[at].chan.invite_only && !modes.operator {
            rb.reply1(rpl::ERR_CHANOPRIVSNEEDED, name, lines::CHAN_O_PRIVS_NEEDED.as_bytes());
            return Err(());
        }
        if self.channels[at].chan.has_member(target) {
            rb.reply2(rpl::ERR_USERONCHANNEL, nick, name, lines::USER_ON_CHANNEL.as_bytes());
            return Err(());
        }
        self.invite_to_channel(at, nick);
        let ghost head = rb.reply_head(rpl::INVITING);
        let msg = rb.reply(rpl::INVITING).param(nick).param(name);
        proof {
            crate::reply::lemma_with_params_2(head, nick@, name@);
        }
        rb.push(msg);
        let full = match table_get(&self.clients, ctx.id) {
            Some(client) => client.full_name(),
            None => Vec::new(),
        };
        let mut params: Vec<Vec<u8>> = Vec::new();
        params.push(to_vec(nick));
        params.push(to_vec(name));
        assert(crate::text::views(params@) =~= seq![nick@, name@]);
        let command = Command::Invite.name();
        let line = plain_line(full.as_slice(), command.as_slice(), &params, None);
        self.send(out, target, &line);
        Ok(())
    }

    /// The numeric reply that refuses a client that asks for the topic of
    /// a channel or sets it: there is no such channel; or, where it sets
    /// the topic, it is no member, or no operator where the channel
    /// restricts its topic.
    pub open spec fn topic_refusal(&self, id: usize, name: Seq<u8>, sets: bool) -> Option<u16> {
        let at = channel_index(self.channels@, fold(name));
        if !(0 <= at < self.channels@.len()) {
            Some(rpl::ERR_NOSUCHCHANNEL)
        } else if !sets {
            None
        } else {
            let ch = self.channels@[at].chan@;
            if !is_member(ch.members, id) {
                Some(rpl::ERR_NOTONCHANNEL)
            } else if ch.topic_restricted && !ch.members[member_index(
                ch.members,
                id,
            )].modes.operator {
                Some(rpl::ERR_CHANOPRIVSNEEDED)
            } else {
                None
            }
        }
    }

    /// The topic that a client sets: none for an empty text, else the text
    /// cut to the length that the server allows, with the nickname of the
    /// client and the time.
    pub open spec fn new_topic(&self, id: usize, text: Seq<u8>, now: u64) -> Option<TopicView> {
        if text.len() == 0 {
            None
        } else {
            Some(
                TopicView {
                    content: cut(text, self.topiclen as int),
                    who: self.client(id).nick,
                    time: now,
                },
            )
        }
    }

    /// What `TOPIC` does to the state, to the replies and to the
    /// deliveries; `r` is what its handler returns.
    pub open spec fn topic_outcome(
        before: &Self,
        after: &Self,
        ctx: &CommandContext,
        rb_before: &ReplyBuffer,
        rb_after: &ReplyBuffer,
        out_before: Seq<Delivery>,
        out_after: Seq<Delivery>,
        name: Seq<u8>,
        topic: Option<Seq<u8>>,
        r: Result<(), ()>,
    ) -> bool {
        &&& (after.same_but_channels(before))
        &&& (after.channels@.len() == before.channels@.len())
        &&& (r.is_ok() == before.topic_refusal(ctx.id, name, topic.is_some()).is_none())
        &&& (match before.topic_refusal(ctx.id, name, topic.is_some()) {
                Some(code) => after.channels == before.channels && delivery_views(
                    out_after,
                ) == delivery_views(out_before) && rb_after.staged() == rb_before.staged().push(
                    Self::channel_refusal(rb_before, code, name, seq![]),
                ),
                None => {
                    let at = channel_index(before.channels@, fold(name));
                    match topic {
                        None => after.channels == before.channels && delivery_views(
                            out_after,
                        ) == delivery_views(out_before) && rb_after.staged() == rb_before.staged()
                            + Self::topic_replies(
                            rb_before.head(),
                            before.channels@[at].chan@,
                            name,
                            true,
                        ),
                        Some(text) => {
                            &&& after.channels@[at].chan@ == (ChannelView {
                                topic: before.new_topic(ctx.id, text, ctx.env.now),
                                ..before.channels@[at].chan@
                            })
                            &&& forall|i: int|
                                0 <= i < before.channels@.len() && i != at ==> #[trigger] after.channels@[i] == before.channels@[i]
                            &&& rb_after.staged() == rb_before.staged()
                            &&& delivery_views(out_after) == delivery_views(out_before) + sent_to(
                                before.clients(),
                                recipients(
                                    before.clients(),
                                    before.channels@[at].chan@.members,
                                    Command::Topic,
                                    None,
                                ),
                                Self::channel_line(
                                    before.client(ctx.id),
                                    Command::Topic,
                                    name,
                                    seq![],
                                    Some(cut(text, before.topiclen as int)),
                                ),
                            )
                        },
                    }
                },
            })
    }

    /// `TOPIC`: shows the topic of a channel, or sets it.  Only a member
    /// may set it, and only an operator where the channel restricts its
    /// topic; an empty topic clears it.  Every member is told of the new
    /// topic.
    pub fn cmd_topic(
        &mut self,
        ctx: &CommandContext,
        rb: &mut ReplyBuffer,
        out: &mut Vec<Delivery>,
        name: &[u8],
        topic: Option<&[u8]>,
    ) -> (r: HandlerResult)
        requires
            old(self).wf(),
            old(self).has_client(ctx.id),
            old(rb).wf(),
        ensures
            final(self).wf(),
            final(rb).wf(),
            old(rb).extended_by(final(rb)),
            out_extended(old(out)@, final(out)@),
            Self::topic_outcome(old(self), final(self), ctx, old(rb), final(rb), old(out)@, final(out)@, name@, match topic { Some(t) => Some(t@), None => None }, r),
    {
        let at = match self.find_channel(rb, name) {
            Some(at) => at,
            None => {
                return Err(());
            },
        };
        let text = match topic {
            Some(text) => text,
            None => {
                self.send_topic(rb, at, name, true);
                return Ok(());
            },
        };
        let modes = match Self::find_member(ctx.id, rb, &self.channels[at].chan, name) {
            Some(modes) => modes,
            None => {
                return Err(());
            },
        };
        if self.channels[at].chan.topic_restricted && !modes.operator {
            rb.reply1(rpl::ERR_CHANOPRIVSNEEDED, name, lines::CHAN_O_PRIVS_NEEDED.as_bytes());
            return Err(());
        }
        let (nick, full) = match table_get(&self.clients, ctx.id) {
            Some(client) => (to_vec(client.nick.as_slice()), client.full_name()),
            None => (Vec::new(), Vec::new()),
        };
        let content = truncated(text, self.topiclen);
        let shown = to_vec(content.as_slice());
        let new_topic = if text.len() == 0 {
            None
        } else {
            Some(Topic { content, who: nick, time: ctx.env.now })
        };
        let mut params: Vec<Vec<u8>> = Vec::new();
        params.push(to_vec(name));
        assert(crate::text::views(params@) =~= seq![name@] + Seq::<Seq<u8>>::empty());
        let command = Command::Topic.name();
        let line = plain_line(full.as_slice(), command.as_slice(), &params, Some(shown.as_slice()));
        self.broadcast(out, at, &line, Command::Topic, None);
        self.set_topic(at, new_topic);
        assert(rb.staged() =~= old(rb).staged());
        Ok(())
    }
}

} // verus!
