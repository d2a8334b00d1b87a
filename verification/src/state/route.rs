//! The handlers of the commands, each reached by its command.

use vstd::prelude::*;
use crate::auth::Provider;
use crate::client::reply_nick;
use crate::message::{param_or_empty, Command, Message, MessageView};
use crate::reply::ReplyBuffer;
use crate::state::rfc2812::HandlerResult;
use crate::state::send::out_extended;
use crate::state::{CommandContext, Delivery, StateInner};
use crate::text::to_vec;

verus! {

impl<P: Provider> StateInner<P> {
    /// What a message whose command the client may issue does to the state,
    /// to the replies and to the deliveries: what the handler of its
    /// command does with the parameters of the message.  A parameter that
    /// the message lacks is taken as empty.  `TOPIC` sets the topic where
    /// the message has a second parameter, `MODE` takes the parameters from
    /// the third on for its records, and `PONG` and a numeric reply change
    /// nothing.  The commands that only answer leave the state and the
    /// deliveries as they are.
    pub open spec fn routed(
        before: &Self,
        after: &Self,
        ctx: &CommandContext,
        rb_before: &ReplyBuffer,
        rb_after: &ReplyBuffer,
        out_before: Seq<Delivery>,
        out_after: Seq<Delivery>,
        m: MessageView,
        command: Command,
        r: Result<(), ()>,
    ) -> bool {
        let p0 = param_or_empty(m.params, 0);
        let p1 = param_or_empty(m.params, 1);
        let p2 = param_or_empty(m.params, 2);
        let p3 = param_or_empty(m.params, 3);
        let id = ctx.id;
        let still = *after == *before && out_after == out_before;
        match command {
            Command::Admin => still && Self::admin_outcome(before, rb_before, rb_after, r),
            Command::Authenticate => Self::authenticate_outcome(
                before,
                after,
                ctx,
                rb_before,
                rb_after,
                out_before,
                out_after,
                p0,
                r,
            ),
            Command::Away => out_after == out_before && Self::away_outcome(
                before,
                after,
                ctx,
                rb_before,
                rb_after,
                p0,
                r,
            ),
            Command::Cap => out_after == out_before && Self::cap_outcome(
                before,
                after,
                ctx,
                rb_before,
                rb_after,
                p0,
                p1,
                r,
            ),
            Command::Info => still && Self::info_outcome(before, rb_before, rb_after, r),
            Command::Invite => Self::invite_outcome(
                before,
                after,
                ctx,
                rb_before,
                rb_after,
                out_before,
                out_after,
                p0,
                p1,
                r,
            ),
            Command::Join => r.is_ok() && after.same_but_channels(before) && Self::joins_from(
                before,
                after,
                rb_before,
                rb_after,
                out_before,
                out_after,
                id,
                p0,
                0,
                p1,
                0,
            ),
            Command::Kick => Self::kick_outcome(
                before,
                after,
                ctx,
                rb_before,
                rb_after,
                out_before,
                out_after,
                p0,
                p1,
                p2,
                r,
            ),
            Command::Kill => Self::kill_outcome(
                before,
                after,
                ctx,
                rb_before,
                rb_after,
                out_before,
                out_after,
                p0,
                p1,
                r,
            ),
            Command::List => still && Self::list_outcome(before, id, rb_before, rb_after, p0, r),
            Command::Lusers => still && Self::lusers_outcome(before, rb_before, rb_after, r),
            Command::Mode => Self::mode_outcome(
                before,
                after,
                ctx,
                rb_before,
                rb_after,
                out_before,
                out_after,
                p0,
                p1,
                if m.params.len() > 2 {
                    m.params.skip(2)
                } else {
                    Seq::<Seq<u8>>::empty()
                },
                r,
            ),
            Command::Motd => still && Self::motd_outcome(before, rb_before, rb_after, r),
            Command::Names => still && Self::names_outcome(before, id, rb_before, rb_after, p0, r),
            Command::Nick => Self::nick_outcome(
                before,
                after,
                ctx,
                rb_before,
                rb_after,
                out_before,
                out_after,
                p0,
                r,
            ),
            Command::Notice => Self::message_outcome(
                before,
                after,
                rb_before,
                rb_after,
                out_before,
                out_after,
                ctx,
                Command::Notice,
                p0,
                Some(p1),
                r,
            ),
            Command::Oper => out_after == out_before && Self::oper_outcome(
                before,
                after,
                ctx,
                rb_before,
                rb_after,
                p0,
                p1,
                r,
            ),
            Command::Part => r.is_ok() && after.same_but_channels(before) && Self::parts_from(
                before,
                after,
                rb_before,
                rb_after,
                out_before,
                out_after,
                id,
                p0,
                0,
                p1,
            ),
            Command::Pass => still && Self::pass_outcome(before, rb_before, rb_after, p0, r),
            Command::Ping => still && Self::ping_outcome(before, rb_before, rb_after, p0, r),
            Command::Pong => still && rb_after.staged() == rb_before.staged() && r.is_ok(),
            Command::PrivMsg => Self::message_outcome(
                before,
                after,
                rb_before,
                rb_after,
                out_before,
                out_after,
                ctx,
                Command::PrivMsg,
                p0,
                Some(p1),
                r,
            ),
            Command::Quit => rb_after.staged() == rb_before.staged() && Self::quit_outcome(
                before,
                after,
                ctx,
                out_before,
                out_after,
                p0,
                r,
            ),
            Command::Rehash => out_after == out_before && Self::rehash_outcome(
                before,
                after,
                ctx,
                rb_before,
                rb_after,
                r,
            ),
            Command::SetName => Self::setname_outcome(
                before,
                after,
                ctx,
                rb_before,
                rb_after,
                out_before,
                out_after,
                p0,
                r,
            ),
            Command::TagMsg => Self::message_outcome(
                before,
                after,
                rb_before,
                rb_after,
                out_before,
                out_after,
                ctx,
                Command::TagMsg,
                p0,
                None,
                r,
            ),
            Command::Time => still && Self::time_outcome(
                before,
                rb_before,
                rb_after,
                ctx.env.time@,
                r,
            ),
            Command::Topic => Self::topic_outcome(
                before,
                after,
                ctx,
                rb_before,
                rb_after,
                out_before,
                out_after,
                p0,
                if m.params.len() == 1 {
                    None
                } else {
                    Some(p1)
                },
                r,
            ),
            Command::User => out_after == out_before && Self::user_outcome(
                before,
                after,
                ctx,
                rb_before,
                rb_after,
                p0,
                p3,
                r,
            ),
            Command::Version => still && Self::version_outcome(before, rb_before, rb_after, r),
            Command::Who => still && Self::who_outcome(before, id, rb_before, rb_after, p0, r),
            Command::Whois => still && Self::whois_outcome(
                before,
                rb_before,
                rb_after,
                p0,
                ctx.env.now,
                r,
            ),
            Command::Reply(_) => still && rb_after.staged() == rb_before.staged() && r.is_ok(),
        }
    }

    /// Deals with a message whose command the client may issue: hands it
    /// to the handler of the command.
    pub fn handle_message_inner(
        &mut self,
        ctx: &CommandContext,
        rb: &mut ReplyBuffer,
        out: &mut Vec<Delivery>,
        msg: &Message,
        command: Command,
    ) -> (r: HandlerResult)
        requires
            old(self).wf(),
            old(self).has_client(ctx.id),
            old(rb).wf(),
            msg@.command == Ok::<Command, Seq<u8>>(command),
            old(self).client(ctx.id).state.may_issue(command),
        ensures
            final(self).wf(),
            final(rb).wf(),
            old(rb).grown_to(final(rb)),
            out_extended(old(out)@, final(out)@),
            final(self).same_config(old(self)),
            old(self).succeeds(ctx.id, command, msg@) matches Some(b) ==> r.is_ok() == b,
            old(rb).nick@ == reply_nick(old(self).client(ctx.id).nick) && final(self).has_client(
                ctx.id,
            ) ==> final(rb).nick@ == reply_nick(final(self).client(ctx.id).nick),
            final(self).has_client(ctx.id) ==> {
                &&& final(self).client(ctx.id).state == old(self).client(ctx.id).state
                &&& final(self).client(ctx.id).auth_id.is_some() ==> command
                    == Command::Authenticate || old(self).client(ctx.id).auth_id.is_some()
                &&& r.is_ok() && command == Command::Nick ==> final(self).client(ctx.id).nick.len()
                    > 0
                &&& r.is_ok() && command == Command::User ==> final(self).client(ctx.id).user.len()
                    > 0 && final(self).client(ctx.id).real.len() > 0
                &&& command != Command::Nick ==> final(self).client(ctx.id).nick == old(self).client(ctx.id).nick && final(rb).nick@ == old(rb).nick@
                &&& command != Command::User && command != Command::SetName ==> final(self).client(ctx.id).user == old(self).client(ctx.id).user && final(self).client(
                    ctx.id,
                ).real == old(self).client(ctx.id).real
            },
            command != Command::Quit && command != Command::Kill ==> final(self).has_client(
                ctx.id,
            ),
            Self::routed(old(self), final(self), ctx, old(rb), final(rb), old(out)@, final(out)@, msg@, command, r),
    {
        let p0 = msg.param(0);
        let p1 = msg.param(1);
        let p2 = msg.param(2);
        let p3 = msg.param(3);
        let n = msg.num_params();
        match command {
            Command::Admin => self.cmd_admin(rb),
            Command::Authenticate => self.cmd_authenticate(ctx, rb, out, p0),
            Command::Away => self.cmd_away(ctx, rb, p0),
            Command::Cap => self.cmd_cap(ctx, rb, p0, p1),
            Command::Info => self.cmd_info(rb),
            Command::Invite => self.cmd_invite(ctx, rb, out, p0, p1),
            Command::Join => self.cmd_join(ctx, rb, out, p0, p1),
            Command::Kick => self.cmd_kick(ctx, rb, out, p0, p1, p2),
            Command::Kill => self.cmd_kill(ctx, rb, out, p0, p1),
            Command::List => self.cmd_list(ctx.id, rb, p0),
            Command::Lusers => self.cmd_lusers(rb),
            Command::Mode => {
                let mut rest: Vec<Vec<u8>> = Vec::new();
                let mut i: usize = 2;
                while i < n
                    invariant
                        2 <= i,
                        n > 2 ==> i <= n,
                        n == msg@.params.len(),
                        rest@.len() == (if n > 2 {
                            i - 2
                        } else {
                            0
                        }),
                        forall|k: int| 0 <= k < rest@.len() ==> (#[trigger] rest@[k])@ == msg@.params[k + 2],
                    decreases n - i,
                {
                    rest.push(to_vec(msg.param(i)));
                    i += 1;
                }
                assert(n > 2 ==> crate::modes::params_view(rest@) =~= msg@.params.skip(2));
                assert(n <= 2 ==> crate::modes::params_view(rest@) =~= Seq::<Seq<u8>>::empty());
                self.cmd_mode(ctx, rb, out, p0, p1, rest.as_slice())
            },
            Command::Motd => self.cmd_motd(rb),
            Command::Names => self.cmd_names(ctx.id, rb, p0),
            Command::Nick => self.cmd_nick(ctx, rb, out, p0),
            Command::Notice => self.cmd_notice(ctx, rb, out, p0, p1),
            Command::Oper => self.cmd_oper(ctx, rb, p0, p1),
            Command::Part => self.cmd_part(ctx, rb, out, p0, p1),
            Command::Pass => self.cmd_pass(rb, p0),
            Command::Ping => self.cmd_ping(rb, p0),
            Command::Pong => Ok(()),
            Command::PrivMsg => self.cmd_privmsg(ctx, rb, out, p0, p1),
            Command::Quit => self.cmd_quit(ctx, out, p0),
            Command::Rehash => self.cmd_rehash(ctx, rb),
            Command::SetName => self.cmd_setname(ctx, rb, out, p0),
            Command::TagMsg => self.cmd_tagmsg(ctx, rb, out, p0),
            Command::Time => self.cmd_time(rb, ctx.env.time.as_slice()),
            Command::Topic => self.cmd_topic(
                ctx,
                rb,
                out,
                p0,
                if n == 1 {
                    None
                } else {
                    Some(p1)
                },
            ),
            Command::User => self.cmd_user(ctx, rb, p0, p3),
            Command::Version => self.cmd_version(rb),
            Command::Who => self.cmd_who(ctx.id, rb, p0),
            Command::Whois => self.cmd_whois(rb, p0, ctx.env.now),
            Command::Reply(_) => Ok(()),
        }
    }
}

} // verus!
