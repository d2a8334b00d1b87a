//! Messages from one client to another, or to a channel.

use vstd::prelude::*;
use vstd::string::StringSliceAdditionalSpecFns;
use crate::auth::Provider;
use crate::buffer::{client_tags, crlf, line_head, tag_block, tag_item, with_item, with_param, with_trailing, Line, LineView, MessageBuffer, TagBuffer};
use crate::channel::may_talk;
use crate::client::{full_name, ClientView};
use crate::lines;
use crate::message::{command_name, Command};
use crate::reply::ReplyBuffer;
use crate::rpl;
use crate::state::base::channel_index;
use crate::state::rfc2812::HandlerResult;
use crate::state::send::{out_extended, recipients, sent_to};
use crate::state::{channel_name_ok, delivery_views, valid_channel_name, CommandContext, Delivery, StateInner};
use crate::table::{table_get, table_get_mut};
use crate::text::{fold, from_str};

verus! {

/// The tags of a message that is passed on: those of the tags of the
/// sender that are passed on, the identifier of the message and the time.
pub open spec fn message_tags(from_client: Seq<u8>, msgid: Seq<u8>, time: Seq<u8>) -> Seq<u8> {
    tag_block(
        with_item(
            with_item(client_tags(from_client, 0), tag_item("msgid".spec_bytes(), Some(msgid))),
            tag_item("time".spec_bytes(), Some(time)),
        ),
    )
}

/// The line of a message that is passed on.
pub open spec fn message_line(
    tags: Seq<u8>,
    from: Seq<u8>,
    command: Command,
    target: Seq<u8>,
    content: Option<Seq<u8>>,
) -> LineView {
    let head = with_param(line_head(from, command_name(command)), target);
    LineView {
        tags,
        body: (match content {
            Some(c) => with_trailing(head, c),
            None => head,
        }) + crlf(),
    }
}

/// Starts the line of a message that is passed on, with its tags.
fn tagged_message(
    ctx: &CommandContext,
    from: &[u8],
    command: Command,
    target: &[u8],
    content: Option<&[u8]>,
) -> (msg: MessageBuffer)
    ensures
        msg.wf(),
        msg.tags() == message_tags(ctx.client_tags@, ctx.env.msgid@, ctx.env.time@),
        msg.body() + crlf() == message_line(
            msg.tags(),
            from@,
            command,
            target@,
            match content {
                Some(c) => Some(c@),
                None => None,
            },
        ).body,
{
    let msgid = from_str("msgid");
    let time = from_str("time");
    let tags = TagBuffer::new(ctx.client_tags).tag(
        msgid.as_slice(),
        Some(ctx.env.msgid.as_slice()),
    ).tag(time.as_slice(), Some(ctx.env.time.as_slice()));
    let name = command.name();
    let msg = tags.prefixed_command(from, name.as_slice()).param(target);
    match content {
        Some(c) => msg.trailing_param(c),
        None => msg,
    }
}

impl<P: Provider> StateInner<P> {
    /// What the sender of a message is sent for it: nothing, unless it has
    /// asked for its messages to be echoed; then the line of the message,
    /// with its tags where the sender takes tags, else as a plain reply.
    pub open spec fn echo(
        rb: &ReplyBuffer,
        from: ClientView,
        ctx: &CommandContext,
        command: Command,
        target: Seq<u8>,
        content: Option<Seq<u8>>,
    ) -> Seq<LineView> {
        if !from.capabilities.echo_message {
            Seq::<LineView>::empty()
        } else if from.capabilities.takes_tags() {
            seq![
                message_line(
                    message_tags(ctx.client_tags@, ctx.env.msgid@, ctx.env.time@),
                    full_name(from),
                    command,
                    target,
                    content,
                ),
            ]
        } else {
            seq![rb.other(full_name(from), command_name(command), seq![target], content)]
        }
    }

    /// The reply that tells the sender why its message is not passed on.
    pub open spec fn message_refusal_reply(rb: &ReplyBuffer, code: u16, target: Seq<u8>) -> LineView {
        if code == rpl::ERR_NOTEXTTOSEND {
            rb.numeric(code, seq![], lines::NEED_MORE_PARAMS.spec_bytes())
        } else if code == rpl::ERR_NOSUCHCHANNEL {
            rb.numeric(code, seq![target], lines::NO_SUCH_CHANNEL.spec_bytes())
        } else if code == rpl::ERR_CANNOTSENDTOCHAN {
            rb.numeric(code, seq![target], lines::CANNOT_SEND_TO_CHAN.spec_bytes())
        } else {
            rb.numeric(code, seq![target], lines::NO_SUCH_NICK.spec_bytes())
        }
    }

    /// What the sender is told of the client that its message goes to:
    /// the away message of that client, where it has one.
    pub open spec fn away_reply(&self, rb: &ReplyBuffer, target: Seq<u8>) -> Seq<LineView> {
        if valid_channel_name(target, self.channellen as int) {
            Seq::<LineView>::empty()
        } else {
            match self.nick_owner(target) {
                Some(to) => match self.client(to).away_message {
                    Some(away) => seq![rb.numeric(rpl::AWAY, seq![target], away)],
                    None => Seq::<LineView>::empty(),
                },
                None => Seq::<LineView>::empty(),
            }
        }
    }

    /// Builds the line of a message that is passed on.  The sender is
    /// sent the line too where it has asked for its messages to be echoed:
    /// with the tags where it takes tags, else without.
    pub fn build_message(
        &self,
        ctx: &CommandContext,
        rb: &mut ReplyBuffer,
        command: Command,
        target: &[u8],
        content: Option<&[u8]>,
    ) -> (line: Line)
        requires
            old(rb).wf(),
            self.has_client(ctx.id),
        ensures
            final(rb).wf(),
            old(rb).extended_by(final(rb)),
            line.wf(),
            line@ == message_line(
                message_tags(ctx.client_tags@, ctx.env.msgid@, ctx.env.time@),
                full_name(self.client(ctx.id)),
                command,
                target@,
                match content {
                    Some(c) => Some(c@),
                    None => None,
                },
            ),
            final(rb).staged() == old(rb).staged() + Self::echo(
                old(rb),
                self.client(ctx.id),
                ctx,
                command,
                target@,
                match content {
                    Some(c) => Some(c@),
                    None => None,
                },
            ),
    {
        let (full, echo, tags) = match table_get(&self.clients, ctx.id) {
            Some(client) => (
                client.full_name(),
                client.capabilities.echo_message,
                client.capabilities.has_message_tags(),
            ),
            None => (Vec::new(), false, false),
        };
        if echo && tags {
            let msg = tagged_message(ctx, full.as_slice(), command, target, content);
            rb.push(msg);
        } else if echo {
            let name = command.name();
            let msg = rb.message(full.as_slice(), name.as_slice()).param(target);
            let msg = match content {
                Some(c) => msg.trailing_param(c),
                None => msg,
            };
            rb.push(msg);
        }
        proof {
            crate::reply::lemma_with_params_1(
                crate::buffer::line_head(rb.prefix_or_domain(full@), command_name(command)),
                target@,
            );
            assert(rb.staged() =~= old(rb).staged() + Self::echo(
                old(rb),
                self.client(ctx.id),
                ctx,
                command,
                target@,
                match content {
                    Some(c) => Some(c@),
                    None => None,
                },
            ));
        }
        let msg = tagged_message(ctx, full.as_slice(), command, target, content);
        let line = msg.build();
        line
    }

    /// Notes that the client has just sent a message to someone.
    fn update_idle_time(&mut self, id: usize, now: u64)
        requires
            old(self).wf(),
            old(self).has_client(id),
        ensures
            final(self).wf(),
            final(self).has_client(id),
            final(self).same_but_clients(old(self)),
            final(self).clients() == old(self).clients().insert(id, final(self).clients()[id]),
            final(self).client(id) == (ClientView {
                last_action_time: now,
                ..old(self).client(id)
            }),
    {
        let ghost before = *self;
        let client = table_get_mut(&mut self.clients, id);
        client.last_action_time = now;
        proof {
            Self::lemma_client_changed(&before, self, id);
        }
    }

    /// What keeps a message from being passed on, if anything does: the
    /// numeric reply, or nothing to say where the sender is just not told.
    /// A message with an empty text is not sent.  One to a channel needs
    /// the channel to exist and the sender to be allowed to speak there.
    /// One to a client needs a registered client of that nickname that is
    /// capable of the command.
    pub open spec fn message_refusal(
        &self,
        id: usize,
        command: Command,
        target: Seq<u8>,
        content: Option<Seq<u8>>,
    ) -> Option<Option<u16>> {
        if content == Some(Seq::<u8>::empty()) {
            Some(Some(rpl::ERR_NOTEXTTOSEND))
        } else if valid_channel_name(target, self.channellen as int) {
            let at = channel_index(self.channels@, fold(target));
            if !(0 <= at < self.channels@.len()) {
                Some(Some(rpl::ERR_NOSUCHCHANNEL))
            } else if !may_talk(self.channels@[at].chan@, id) {
                Some(Some(rpl::ERR_CANNOTSENDTOCHAN))
            } else {
                None
            }
        } else {
            match self.nick_owner(target) {
                None => Some(Some(rpl::ERR_NOSUCHNICK)),
                Some(to) => if !self.client(to).capabilities.capable_of(command) {
                    Some(None)
                } else {
                    None
                },
            }
        }
    }

    /// What passing a message on does.  Where it is refused, the sender
    /// is told why (or not told, where the client that the message is for
    /// knows no such messages) and nothing else happens.  Else the line of
    /// the message goes to the members of the channel that are capable of
    /// the command, the sender left out, or to the client with the
    /// nickname; the sender is sent its echo, and the away message of the
    /// client that the message went to; and the sender is noted as having
    /// just been active.
    pub open spec fn message_outcome(
        before: &Self,
        after: &Self,
        rb_before: &ReplyBuffer,
        rb_after: &ReplyBuffer,
        out_before: Seq<Delivery>,
        out_after: Seq<Delivery>,
        ctx: &CommandContext,
        command: Command,
        target: Seq<u8>,
        content: Option<Seq<u8>>,
        r: HandlerResult,
    ) -> bool {
        let id = ctx.id;
        &&& after.has_client(id)
        &&& after.same_but_clients(before)
        &&& r.is_ok() == before.message_refusal(id, command, target, content).is_none()
        &&& match before.message_refusal(id, command, target, content) {
            Some(refusal) => {
                &&& after.clients == before.clients
                &&& delivery_views(out_after) == delivery_views(out_before)
                &&& rb_after.staged() == (match refusal {
                    Some(code) => rb_before.staged().push(
                        Self::message_refusal_reply(rb_before, code, target),
                    ),
                    None => rb_before.staged(),
                })
            },
            None => {
                &&& after.clients() == before.clients().insert(id, after.clients()[id])
                &&& after.client(id) == (ClientView {
                    last_action_time: ctx.env.now,
                    ..before.client(id)
                })
                &&& rb_after.staged() == rb_before.staged() + Self::echo(
                    rb_before,
                    before.client(id),
                    ctx,
                    command,
                    target,
                    content,
                ) + before.away_reply(rb_before, target)
                &&& delivery_views(out_after) == delivery_views(out_before) + sent_to(
                    before.clients(),
                    if valid_channel_name(target, before.channellen as int) {
                        recipients(
                            before.clients(),
                            before.channels@[channel_index(
                                before.channels@,
                                fold(target),
                            )].chan@.members,
                            command,
                            Some(id),
                        )
                    } else {
                        seq![before.nick_owner(target).unwrap()]
                    },
                    message_line(
                        message_tags(ctx.client_tags@, ctx.env.msgid@, ctx.env.time@),
                        full_name(before.client(id)),
                        command,
                        target,
                        content,
                    ),
                )
            },
        }
    }

    /// Passes a message on, as `message_outcome` says.
    pub fn send_query_or_channel_msg(
        &mut self,
        ctx: &CommandContext,
        rb: &mut ReplyBuffer,
        out: &mut Vec<Delivery>,
        command: Command,
        target: &[u8],
        content: Option<&[u8]>,
    ) -> (r: HandlerResult)
        requires
            old(self).wf(),
            old(self).has_client(ctx.id),
            old(rb).wf(),
        ensures
            final(self).wf(),
            final(rb).wf(),
            old(rb).extended_by(final(rb)),
            out_extended(old(out)@, final(out)@),
            final(self).has_client(ctx.id),
            final(self).same_but_clients(old(self)),
            Self::message_outcome(
                old(self),
                final(self),
                old(rb),
                final(rb),
                old(out)@,
                final(out)@,
                ctx,
                command,
                target@,
                match content {
                    Some(c) => Some(c@),
                    None => None,
                },
                r,
            ),
    {
        let empty_text = match content {
            Some(c) => c.len() == 0,
            None => false,
        };
        if empty_text {
            assert(content.unwrap()@ =~= Seq::<u8>::empty());
            rb.reply0(rpl::ERR_NOTEXTTOSEND, lines::NEED_MORE_PARAMS.as_bytes());
            return Err(());
        }
        if channel_name_ok(target, self.channellen) {
            let at = match self.find_channel(rb, target) {
                Some(at) => at,
                None => {
                    return Err(());
                },
            };
            if !self.channels[at].chan.can_talk(ctx.id) {
                rb.reply1(rpl::ERR_CANNOTSENDTOCHAN, target, lines::CANNOT_SEND_TO_CHAN.as_bytes());
                return Err(());
            }
            let line = self.build_message(ctx, rb, command, target, content);
            self.broadcast(out, at, &line, command, Some(ctx.id));
        } else {
            let to = match self.find_nick(rb, target) {
                Some(to) => to,
                None => {
                    return Err(());
                },
            };
            let capable = match table_get(&self.clients, to) {
                Some(client) => client.capabilities.is_capable_of(command),
                None => false,
            };
            if !capable {
                assert(rb.staged() =~= old(rb).staged());
                return Err(());
            }
            let line = self.build_message(ctx, rb, command, target, content);
            self.send(out, to, &line);
            match table_get(&self.clients, to) {
                Some(client) => match &client.away_message {
                    Some(away) => {
                        rb.reply1(rpl::AWAY, target, away.as_slice());
                    },
                    None => {},
                },
                None => {},
            }
        }
        proof {
            let c = match content {
                Some(c) => Some(c@),
                None => None,
            };
            assert(rb.staged() =~= old(rb).staged() + Self::echo(
                old(rb),
                self.client(ctx.id),
                ctx,
                command,
                target@,
                c,
            ) + self.away_reply(old(rb), target@));
        }
        self.update_idle_time(ctx.id, ctx.env.now);
        Ok(())
    }

    /// `PRIVMSG`: a message with a text.
    pub fn cmd_privmsg(
        &mut self,
        ctx: &CommandContext,
        rb: &mut ReplyBuffer,
        out: &mut Vec<Delivery>,
        target: &[u8],
        content: &[u8],
    ) -> (r: HandlerResult)
        requires
            old(self).wf(),
            old(self).has_client(ctx.id),
            old(rb).wf(),
        ensures
            final(self).wf(),
            final(rb).wf(),
            old(rb).extended_by(final(rb)),
            out_extended(old(out)@, final(out)@),
            Self::message_outcome(
                old(self),
                final(self),
                old(rb),
                final(rb),
                old(out)@,
                final(out)@,
                ctx,
                Command::PrivMsg,
                target@,
                Some(content@),
                r,
            ),
    {
        self.send_query_or_channel_msg(ctx, rb, out, Command::PrivMsg, target, Some(content))
    }

    /// `NOTICE`: a message with a text that asks for no answer.
    pub fn cmd_notice(
        &mut self,
        ctx: &CommandContext,
        rb: &mut ReplyBuffer,
        out: &mut Vec<Delivery>,
        target: &[u8],
        content: &[u8],
    ) -> (r: HandlerResult)
        requires
            old(self).wf(),
            old(self).has_client(ctx.id),
            old(rb).wf(),
        ensures
            final(self).wf(),
            final(rb).wf(),
            old(rb).extended_by(final(rb)),
            out_extended(old(out)@, final(out)@),
            Self::message_outcome(
                old(self),
                final(self),
                old(rb),
                final(rb),
                old(out)@,
                final(out)@,
                ctx,
                Command::Notice,
                target@,
                Some(content@),
                r,
            ),
    {
        self.send_query_or_channel_msg(ctx, rb, out, Command::Notice, target, Some(content))
    }
}

} // verus!
