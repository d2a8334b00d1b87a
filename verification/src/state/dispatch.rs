//! The entry point for the messages of clients.

use vstd::prelude::*;
use vstd::string::StringSliceAdditionalSpecFns;
use crate::auth::Provider;
use crate::buffer::{find_tag, tag_unescape, tag_value, tags_from, unescaped, LineView};
use crate::client::{reply_nick, ClientView};
use crate::lines;
use crate::message::{
    command_name, enough_params, param_or_empty, Command, Message, MessageView,
    MAX_TAG_DATA_LENGTH,
};
use crate::reply::{finished, ReplyBuffer};
use crate::rpl;
use crate::state::rfc2812::HandlerResult;
use crate::state::send::{lines_to, out_extended};
use crate::state::{
    delivery_views, points, points_of, CommandContext, Delivery, Env, StateInner,
};
use crate::table::{table_get, table_get_mut};
use crate::text::{from_str, to_vec};

verus! {

/// How far a message gets before it is dealt with.
pub enum Admission {
    /// Its tags are too long.
    TagsTooLong,
    /// Its command is none that the server knows.
    UnknownCommand(Seq<u8>),
    /// The client has not the capability that the command needs.
    Incapable(Command),
    /// It has too few parameters.
    TooFewParams(Command),
    /// The client may not issue the command in its state.
    Forbidden(Command),
    /// It is dealt with.
    Admitted(Command),
}

/// How far a message of a client gets.
pub open spec fn admission(c: ClientView, m: MessageView) -> Admission {
    if m.tags.len() > MAX_TAG_DATA_LENGTH {
        Admission::TagsTooLong
    } else {
        match m.command {
            Err(word) => Admission::UnknownCommand(word),
            Ok(command) => if !c.capabilities.capable_of(command) {
                Admission::Incapable(command)
            } else if !enough_params(m) {
                Admission::TooFewParams(command)
            } else if !c.state.may_issue(command) {
                Admission::Forbidden(command)
            } else {
                Admission::Admitted(command)
            },
        }
    }
}

/// The points that a message costs that is not dealt with.
pub open spec fn refusal_points(a: Admission) -> u32 {
    match a {
        Admission::TagsTooLong => 3,
        Admission::UnknownCommand(_) => 1,
        Admission::Incapable(_) => 2,
        Admission::TooFewParams(_) => 1,
        Admission::Forbidden(_) => 2,
        Admission::Admitted(_) => 0,
    }
}

/// The label of a message, for a client that has asked for labeled
/// responses: the value of its tag `label`.  Empty for other clients and
/// for messages without that tag.
pub open spec fn label_of(c: ClientView, m: MessageView) -> Seq<u8> {
    if c.capabilities.labeled_response {
        match tag_value(tags_from(m.tags, 0), "label".spec_bytes()) {
            Some(v) => unescaped(v, 0),
            None => Seq::<u8>::empty(),
        }
    } else {
        Seq::<u8>::empty()
    }
}

/// The reply that tells a client that its command is not known, or that
/// it has not registered.
pub open spec fn unknown_reply(rb: &ReplyBuffer, c: ClientView, word: Seq<u8>) -> LineView {
    if c.state.registered {
        rb.numeric(rpl::ERR_UNKNOWNCOMMAND, seq![word], lines::UNKNOWN_COMMAND.spec_bytes())
    } else {
        rb.numeric(rpl::ERR_NOTREGISTERED, seq![], lines::NOT_REGISTERED.spec_bytes())
    }
}

/// The reply to a message that has too few parameters.
pub open spec fn arity_reply(rb: &ReplyBuffer, command: Command, given: nat) -> LineView {
    let text = lines::NEED_MORE_PARAMS.spec_bytes();
    if command == Command::Nick || command == Command::Whois {
        rb.numeric(rpl::ERR_NONICKNAMEGIVEN, seq![], text)
    } else if (command == Command::PrivMsg || command == Command::Notice || command
        == Command::TagMsg) && given == 0 {
        rb.numeric(rpl::ERR_NORECIPIENT, seq![], text)
    } else if (command == Command::PrivMsg || command == Command::Notice) && given == 1 {
        rb.numeric(rpl::ERR_NOTEXTTOSEND, seq![], text)
    } else {
        rb.numeric(rpl::ERR_NEEDMOREPARAMS, seq![command_name(command)], text)
    }
}

/// The reply to a message that is not dealt with.
pub open spec fn refusal_reply(rb: &ReplyBuffer, c: ClientView, m: MessageView) -> LineView {
    match admission(c, m) {
        Admission::TagsTooLong => rb.numeric(
            rpl::ERR_INPUTTOOLONG,
            seq![],
            lines::INPUT_TOO_LONG.spec_bytes(),
        ),
        Admission::UnknownCommand(word) => unknown_reply(rb, c, word),
        Admission::Incapable(command) => unknown_reply(rb, c, command_name(command)),
        Admission::TooFewParams(command) => arity_reply(rb, command, m.params.len()),
        Admission::Forbidden(_) => if c.state.registered {
            rb.numeric(rpl::ERR_ALREADYREGISTRED, seq![], lines::ALREADY_REGISTERED.spec_bytes())
        } else {
            rb.numeric(rpl::ERR_NOTREGISTERED, seq![], lines::NOT_REGISTERED.spec_bytes())
        },
        Admission::Admitted(_) => rb.numeric(0, seq![], seq![]),
    }
}

impl<P: Provider> StateInner<P> {
    /// Whether the handler of a command succeeds, for the commands of which
    /// the state and the message decide it; `None` for `AUTHENTICATE`,
    /// of which the provider decides.
    pub open spec fn succeeds(&self, id: usize, command: Command, m: MessageView) -> Option<bool> {
        let p0 = param_or_empty(m.params, 0);
        let p1 = param_or_empty(m.params, 1);
        let p3 = param_or_empty(m.params, 3);
        match command {
            Command::Authenticate => None,
            Command::Nick => Some(self.nick_refusal(p0).is_none()),
            Command::User => Some(
                crate::state::rfc2812::cut(p0, self.userlen as int).len() > 0
                    && crate::state::rfc2812::cut(p3, self.namelen as int).len() > 0,
            ),
            Command::Pass => Some(self.password_ok(p0)),
            Command::Whois => Some(self.nick_owner(p0).is_some()),
            Command::Oper => Some(self.is_oper(p0, p1)),
            Command::Rehash => Some(self.client(id).operator),
            Command::Kill => Some(self.client(id).operator && self.nick_owner(p0).is_some()),
            Command::SetName => Some(0 < p0.len() <= self.namelen),
            Command::Kick => Some(self.kick_refusal(id, p0, p1).is_none()),
            Command::Invite => Some(self.invite_refusal(id, p0, p1).is_none()),
            Command::Topic => Some(self.topic_refusal(id, p0, m.params.len() != 1).is_none()),
            Command::PrivMsg => Some(
                self.message_refusal(id, Command::PrivMsg, p0, Some(p1)).is_none(),
            ),
            Command::Notice => Some(
                self.message_refusal(id, Command::Notice, p0, Some(p1)).is_none(),
            ),
            Command::TagMsg => Some(self.message_refusal(id, Command::TagMsg, p0, None).is_none()),
            Command::Cap => Some(crate::state::ircv3::cap_succeeds(p0, p1)),
            Command::Mode => Some(self.mode_succeeds(id, p0, p1)),
            _ => Some(true),
        }
    }

    /// How the deliveries of a message that is dealt with are made up.
    /// First comes what the handler sent, `sent`, behind what was there;
    /// last come the replies to the client, `staged`, as they are sent for
    /// a command with this label.  Where the message has made the client
    /// registered, the replies end with the replies that greet it.
    pub open spec fn answered(
        before: &Self,
        after: &Self,
        out_before: Seq<crate::state::DeliveryView>,
        out_after: Seq<crate::state::DeliveryView>,
        id: usize,
        label: Seq<u8>,
        batch: Seq<u8>,
        sent: Seq<crate::state::DeliveryView>,
        staged: Seq<LineView>,
    ) -> bool {
        let head = crate::reply::ReplyHead {
            domain: before.domain@,
            nick: reply_nick(after.client(id).nick),
            label,
            batch,
        };
        &&& out_after == out_before + sent + lines_to(
            id,
            after.client(id).capabilities.takes_tags(),
            finished(before.domain@, label, batch, staged),
        )
        &&& after.client(id).state.registered && !before.client(id).state.registered
            ==> exists|first: Seq<LineView>|
            staged == first + #[trigger] after.welcome_replies(head, id)
    }

    /// What dealing with a message whose command the client may issue
    /// does.  The handler of the command is given an empty buffer of
    /// replies, `first`, and leaves the state `middle`, the replies
    /// `replies` and the deliveries `sent`, as `routed` says; `result` is
    /// what it returns.  Where the client is gone then, nothing more is done
    /// and its replies are dropped.  Else the registration of the client
    /// moves on if the handler succeeded; the message costs the points of
    /// its command, or twice as many where the handler failed; and the
    /// replies are delivered to the client behind what was sent, followed
    /// by the replies that greet a client that has just become registered.
    pub open spec fn handled(
        before: &Self,
        after: &Self,
        out_before: Seq<Delivery>,
        out_after: Seq<Delivery>,
        ctx: &CommandContext,
        m: MessageView,
        command: Command,
        r: Result<u32, ()>,
        middle: &Self,
        first: &ReplyBuffer,
        replies: &ReplyBuffer,
        sent: Seq<Delivery>,
        result: Result<(), ()>,
    ) -> bool {
        let id = ctx.id;
        let c = before.client(id);
        &&& first.head() == (crate::reply::ReplyHead {
            domain: before.domain@,
            nick: reply_nick(c.nick),
            label: label_of(c, m),
            batch: ctx.env.msgid@,
        })
        &&& first.staged() == Seq::<LineView>::empty()
        &&& Self::routed(before, middle, ctx, first, replies, out_before, sent, m, command, result)
        &&& if !middle.has_client(id) {
            &&& r.is_err()
            &&& *after == *middle
            &&& delivery_views(out_after) == delivery_views(sent)
        } else {
            let state = middle.client(id).state;
            let next = if result.is_ok() {
                state.after(
                    command,
                    param_or_empty(m.params, 0),
                    middle.password.is_some(),
                    middle.client(id).auth_id.is_some(),
                )
            } else {
                state
            };
            &&& r.is_ok()
            &&& r.unwrap() == (if result.is_ok() {
                points(command) as int
            } else {
                2 * points(command)
            })
            &&& after.same_but_clients(middle)
            &&& after.clients() == middle.clients().insert(id, after.clients()[id])
            &&& after.client(id) == (ClientView { state: next, ..middle.client(id) })
            &&& delivery_views(out_after) == delivery_views(sent) + lines_to(
                id,
                middle.client(id).capabilities.takes_tags(),
                finished(
                    before.domain@,
                    label_of(c, m),
                    ctx.env.msgid@,
                    replies.staged() + (if next.registered && !state.registered {
                        after.welcome_replies(replies.head(), id)
                    } else {
                        Seq::<LineView>::empty()
                    }),
                ),
            )
        }
    }

    /// Hands the replies to a command over to the client.
    fn finish(&self, id: usize, rb: ReplyBuffer, out: &mut Vec<Delivery>)
        requires
            rb.wf(),
            self.has_client(id),
        ensures
            out_extended(old(out)@, final(out)@),
            delivery_views(final(out)@) == delivery_views(old(out)@) + lines_to(
                id,
                self.client(id).capabilities.takes_tags(),
                finished(rb.domain@, rb.label@, rb.batch@, rb.staged()),
            ),
    {
        let with_tags = match table_get(&self.clients, id) {
            Some(client) => client.capabilities.has_message_tags(),
            None => false,
        };
        let lines = rb.end_lr();
        Self::send_lines(out, id, with_tags, &lines);
    }

    /// Stages the reply to a message that is not dealt with.
    fn refuse(rb: &mut ReplyBuffer, c: &crate::client::Client, msg: &Message)
        requires
            old(rb).wf(),
            !(admission(c@, msg@) is Admitted),
        ensures
            final(rb).wf(),
            old(rb).extended_by(final(rb)),
            final(rb).staged() == old(rb).staged().push(refusal_reply(old(rb), c@, msg@)),
    {
        let registered = c.is_registered();
        if MAX_TAG_DATA_LENGTH < msg.tags.len() {
            rb.reply0(rpl::ERR_INPUTTOOLONG, lines::INPUT_TOO_LONG.as_bytes());
            return ;
        }
        let command = match &msg.command {
            Ok(command) => *command,
            Err(word) => {
                if registered {
                    rb.reply1(
                        rpl::ERR_UNKNOWNCOMMAND,
                        word.as_slice(),
                        lines::UNKNOWN_COMMAND.as_bytes(),
                    );
                } else {
                    rb.reply0(rpl::ERR_NOTREGISTERED, lines::NOT_REGISTERED.as_bytes());
                }
                return ;
            },
        };
        if !c.capabilities.is_capable_of(command) {
            if registered {
                let name = command.name();
                rb.reply1(rpl::ERR_UNKNOWNCOMMAND, name.as_slice(), lines::UNKNOWN_COMMAND.as_bytes());
            } else {
                rb.reply0(rpl::ERR_NOTREGISTERED, lines::NOT_REGISTERED.as_bytes());
            }
            return ;
        }
        if !msg.has_enough_params() {
            let text = lines::NEED_MORE_PARAMS.as_bytes();
            let given = msg.num_params();
            if command == Command::Nick || command == Command::Whois {
                rb.reply0(rpl::ERR_NONICKNAMEGIVEN, text);
            } else if (command == Command::PrivMsg || command == Command::Notice || command
                == Command::TagMsg) && given == 0 {
                rb.reply0(rpl::ERR_NORECIPIENT, text);
            } else if (command == Command::PrivMsg || command == Command::Notice) && given == 1 {
                rb.reply0(rpl::ERR_NOTEXTTOSEND, text);
            } else {
                let name = command.name();
                rb.reply1(rpl::ERR_NEEDMOREPARAMS, name.as_slice(), text);
            }
            return ;
        }
        if registered {
            rb.reply0(rpl::ERR_ALREADYREGISTRED, lines::ALREADY_REGISTERED.as_bytes());
        } else {
            rb.reply0(rpl::ERR_NOTREGISTERED, lines::NOT_REGISTERED.as_bytes());
        }
    }

    /// Moves the registration of a client on after a command of it was
    /// dealt with in good order, and greets it where it has just become
    /// registered.
    fn advance(&mut self, id: usize, rb: &mut ReplyBuffer, command: Command, sub: &[u8])
        requires
            old(self).wf(),
            old(self).has_client(id),
            old(rb).wf(),
            command == Command::Nick ==> old(self).client(id).nick.len() > 0,
            command == Command::User ==> old(self).client(id).user.len() > 0 && old(self).client(
                id,
            ).real.len() > 0,
        ensures
            final(self).wf(),
            final(rb).wf(),
            old(rb).extended_by(final(rb)),
            final(self).has_client(id),
            final(self).same_but_clients(old(self)),
            final(self).clients() == old(self).clients().insert(id, final(self).clients()[id]),
            final(self).client(id) == (ClientView {
                state: old(self).client(id).state.after(
                    command,
                    sub@,
                    old(self).password.is_some(),
                    old(self).client(id).auth_id.is_some(),
                ),
                ..old(self).client(id)
            }),
            final(self).client(id).state.registered && !old(self).client(id).state.registered
                ==> final(rb).staged().len() > old(rb).staged().len() && final(rb).staged()[old(rb).staged().len() as int] == old(rb).numeric(
                rpl::WELCOME,
                seq![],
                crate::state::query::welcome_text(final(self).client(id)),
            ),
            !(final(self).client(id).state.registered && !old(self).client(id).state.registered)
                ==> final(rb).staged() == old(rb).staged(),
            final(self).client(id).state.registered && !old(self).client(id).state.registered
                ==> final(rb).staged() == old(rb).staged() + final(self).welcome_replies(
                old(rb).head(),
                id,
            ),
    {
        let ghost before = *self;
        let needs_pass = self.password.is_some();
        let client = table_get_mut(&mut self.clients, id);
        let old_state = client.state;
        let new_state = client.apply_command(command, sub, needs_pass);
        proof {
            Self::lemma_client_changed(&before, self, id);
        }
        if new_state.registered && !old_state.registered {
            self.send_welcome(id, rb);
        } else {
            assert(rb.staged() =~= old(rb).staged());
        }
    }

    /// Deals with one message of a client.
    ///
    /// `Err` comes back where `id` is no client, or is none any more when
    /// the message is dealt with.  Else the points that the message costs
    /// come back: those of the refusal for a message that is refused before
    /// it reaches a handler, else the points of its command, or twice as
    /// many where the handler fails.  The replies to the client are put at
    /// the end of the deliveries, behind what was sent to others.
    pub fn handle_message(&mut self, id: usize, msg: &Message, env: &Env, out: &mut Vec<Delivery>) -> (r:
        Result<u32, ()>)
        requires
            old(self).wf(),
        ensures
            final(self).wf(),
            out_extended(old(out)@, final(out)@),
            final(self).same_config(old(self)),
            r.is_err() == !final(self).has_client(id),
            !old(self).has_client(id) ==> final(self).clients == old(self).clients && final(self).nicks == old(self).nicks && final(self).channels == old(self).channels
                && delivery_views(final(out)@) == delivery_views(old(out)@),
            old(self).has_client(id) ==> match admission(old(self).client(id), msg@) {
                Admission::Admitted(command) => {
                    &&& (r.is_ok() ==> {
                    let before = old(self).client(id).state;
                    let after = final(self).client(id).state;
                    &&& r.unwrap() == points(command) || r.unwrap() == 2 * points(command)
                    &&& old(self).succeeds(id, command, msg@) matches Some(b) ==> (r.unwrap()
                        == points(command)) == b
                    &&& r.unwrap() == points(command) ==> after == before.after(
                        command,
                        param_or_empty(msg@.params, 0),
                        old(self).password.is_some(),
                        final(self).client(id).auth_id.is_some(),
                    )
                    &&& r.unwrap() != points(command) ==> after == before
                    &&& before.registered ==> after.registered
                    &&& exists|sent: Seq<crate::state::DeliveryView>, staged: Seq<LineView>|
                        Self::answered(
                            old(self),
                            final(self),
                            delivery_views(old(out)@),
                            delivery_views(final(out)@),
                            id,
                            label_of(old(self).client(id), msg@),
                            env.msgid@,
                            sent,
                            staged,
                        )
                })
                    &&& exists|
                        ctx: CommandContext,
                        middle: Self,
                        first: ReplyBuffer,
                        replies: ReplyBuffer,
                        sent: Seq<Delivery>,
                        result: Result<(), ()>,
                    |
                        {
                            &&& ctx.id == id
                            &&& ctx.client_tags@ == msg@.tags
                            &&& ctx.env == env
                            &&& #[trigger] Self::handled(
                                old(self),
                                final(self),
                                old(out)@,
                                final(out)@,
                                &ctx,
                                msg@,
                                command,
                                r,
                                &middle,
                                &first,
                                &replies,
                                sent,
                                result,
                            )
                        }
                },
                refused => {
                    let c = old(self).client(id);
                    &&& r == Ok::<u32, ()>(refusal_points(refused))
                    &&& final(self).clients == old(self).clients
                    &&& final(self).nicks == old(self).nicks
                    &&& final(self).channels == old(self).channels
                    &&& exists|rb: ReplyBuffer|
                        {
                            &&& rb.domain@ == old(self).domain@
                            &&& rb.nick@ == reply_nick(c.nick)
                            &&& rb.label@ == label_of(c, msg@)
                            &&& rb.batch@ == env.msgid@
                            &&& delivery_views(final(out)@) == delivery_views(old(out)@)
                                + lines_to(
                                id,
                                c.capabilities.takes_tags(),
                                finished(
                                    rb.domain@,
                                    rb.label@,
                                    rb.batch@,
                                    seq![refusal_reply(&rb, c, msg@)],
                                ),
                            )
                        }
                },
            },
    {
        let (nick, labeled) = match table_get(&self.clients, id) {
            Some(client) => (
                to_vec(client.nick.as_slice()),
                client.capabilities.has_labeled_response(),
            ),
            None => {
                return Err(());
            },
        };
        let label = if labeled {
            let name = from_str("label");
            match find_tag(msg.tags.as_slice(), name.as_slice()) {
                Some(value) => tag_unescape(value.as_slice()),
                None => Vec::new(),
            }
        } else {
            Vec::new()
        };
        assert(label@ =~= label_of(self.client(id), msg@));
        let mut rb = ReplyBuffer::new(
            self.domain.as_slice(),
            nick.as_slice(),
            label.as_slice(),
            env.msgid.as_slice(),
        );
        let ghost start = rb;
        let refused = match table_get(&self.clients, id) {
            Some(client) => {
                let open = msg.tags.len() <= MAX_TAG_DATA_LENGTH && match &msg.command {
                    Ok(command) => client.capabilities.is_capable_of(*command)
                        && msg.has_enough_params() && client.can_issue_command(*command),
                    Err(_) => false,
                };
                if !open {
                    Self::refuse(&mut rb, client, msg);
                }
                !open
            },
            None => true,
        };
        if refused {
            let used: u32 = if MAX_TAG_DATA_LENGTH < msg.tags.len() {
                3
            } else {
                match &msg.command {
                    Err(_) => 1,
                    Ok(command) => {
                        let capable = match table_get(&self.clients, id) {
                            Some(client) => client.capabilities.is_capable_of(*command),
                            None => false,
                        };
                        if !capable {
                            2
                        } else if !msg.has_enough_params() {
                            1
                        } else {
                            2
                        }
                    },
                }
            };
            proof {
                assert(rb.staged() =~= seq![refusal_reply(&start, self.client(id), msg@)]);
                assert(refusal_reply(&start, self.client(id), msg@) == refusal_reply(
                    &rb,
                    self.client(id),
                    msg@,
                ));
            }
            self.finish(id, rb, out);
            return Ok(used);
        }
        let command = match &msg.command {
            Ok(command) => *command,
            Err(_) => {
                return Err(());
            },
        };
        assert(rb.staged() =~= Seq::<LineView>::empty());
        self.answer(id, msg, env, command, rb, out)
    }
    /// Hands a message whose command the client may issue to the handler
    /// of the command, moves the registration of the client on, and
    /// delivers the replies to it.
    fn answer(
        &mut self,
        id: usize,
        msg: &Message,
        env: &Env,
        command: Command,
        first: ReplyBuffer,
        out: &mut Vec<Delivery>,
    ) -> (r: Result<u32, ()>)
        requires
            old(self).wf(),
            old(self).has_client(id),
            first.wf(),
            first.staged() == Seq::<LineView>::empty(),
            first.head() == (crate::reply::ReplyHead {
                domain: old(self).domain@,
                nick: reply_nick(old(self).client(id).nick),
                label: label_of(old(self).client(id), msg@),
                batch: env.msgid@,
            }),
            msg@.command == Ok::<Command, Seq<u8>>(command),
            old(self).client(id).state.may_issue(command),
        ensures
            final(self).wf(),
            out_extended(old(out)@, final(out)@),
            final(self).same_config(old(self)),
            r.is_err() == !final(self).has_client(id),
            ({
                    &&& (r.is_ok() ==> {
                    let before = old(self).client(id).state;
                    let after = final(self).client(id).state;
                    &&& r.unwrap() == points(command) || r.unwrap() == 2 * points(command)
                    &&& old(self).succeeds(id, command, msg@) matches Some(b) ==> (r.unwrap()
                        == points(command)) == b
                    &&& r.unwrap() == points(command) ==> after == before.after(
                        command,
                        param_or_empty(msg@.params, 0),
                        old(self).password.is_some(),
                        final(self).client(id).auth_id.is_some(),
                    )
                    &&& r.unwrap() != points(command) ==> after == before
                    &&& before.registered ==> after.registered
                    &&& exists|sent: Seq<crate::state::DeliveryView>, staged: Seq<LineView>|
                        Self::answered(
                            old(self),
                            final(self),
                            delivery_views(old(out)@),
                            delivery_views(final(out)@),
                            id,
                            label_of(old(self).client(id), msg@),
                            env.msgid@,
                            sent,
                            staged,
                        )
                })
                    &&& exists|
                        ctx: CommandContext,
                        middle: Self,
                        first: ReplyBuffer,
                        replies: ReplyBuffer,
                        sent: Seq<Delivery>,
                        result: Result<(), ()>,
                    |
                        {
                            &&& ctx.id == id
                            &&& ctx.client_tags@ == msg@.tags
                            &&& ctx.env == env
                            &&& #[trigger] Self::handled(
                                old(self),
                                final(self),
                                old(out)@,
                                final(out)@,
                                &ctx,
                                msg@,
                                command,
                                r,
                                &middle,
                                &first,
                                &replies,
                                sent,
                                result,
                            )
                        }
            }),
    {
        let ghost start = first;
        let mut rb = first;
        let sub = to_vec(msg.param(0));
        let ctx = CommandContext { id, client_tags: msg.tags.as_slice(), env };
        let result = self.handle_message_inner(&ctx, &mut rb, out, msg, command);
        let ghost middle = *self;
        let ghost replies = rb;
        let ghost handed = out@;
        if !self.contains(id) {
            proof {
                assert(Self::handled(
                    old(self),
                    self,
                    old(out)@,
                    out@,
                    &ctx,
                    msg@,
                    command,
                    Err::<u32, ()>(()),
                    &middle,
                    &start,
                    &replies,
                    handed,
                    result,
                ));
            }
            return Err(());
        }
        let ghost handled = delivery_views(out@);
        let ghost sent = handled.subrange(
            delivery_views(old(out)@).len() as int,
            handled.len() as int,
        );
        assert(handled =~= delivery_views(old(out)@) + sent);
        let ghost first = rb.staged();
        let ghost head = rb.head();
        let used = if result.is_ok() {
            self.advance(id, &mut rb, command, sub.as_slice());
            points_of(command)
        } else {
            assert(first =~= first + Seq::<LineView>::empty());
            points_of(command) * 2
        };
        let ghost staged = rb.staged();
        self.finish(id, rb, out);
        proof {
            if self.client(id).state.registered && !old(self).client(id).state.registered {
                assert(staged == first + self.welcome_replies(head, id));
            }
            assert(delivery_views(out@) =~= delivery_views(old(out)@) + sent + lines_to(
                id,
                self.client(id).capabilities.takes_tags(),
                finished(old(self).domain@, label_of(old(self).client(id), msg@), env.msgid@, staged),
            ));
            assert(Self::answered(
                old(self),
                self,
                delivery_views(old(out)@),
                delivery_views(out@),
                id,
                label_of(old(self).client(id), msg@),
                env.msgid@,
                sent,
                staged,
            ));
            assert(self.clients() =~= middle.clients().insert(id, self.clients()[id]));
            assert(Self::handled(
                old(self),
                self,
                old(out)@,
                out@,
                &ctx,
                msg@,
                command,
                Ok::<u32, ()>(used),
                &middle,
                &start,
                &replies,
                handed,
                result,
            ));
        }
        Ok(used)
    }
}

} // verus!
