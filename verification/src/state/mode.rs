//! The `MODE` command.

use vstd::prelude::*;
use vstd::string::StringSliceAdditionalSpecFns;
use crate::auth::Provider;
use crate::channel::{apply_change, is_member, member_index, named_target, ChannelView, NickOf};
use crate::client::ClientView;
use crate::lines;
use crate::message::Command;
use crate::modes::{records_view, ChangeView, ChannelModeChange, ChannelQuery, Error, ModeKind, UserModeChange, UserQuery};
use crate::buffer::LineView;
use crate::reply::{numeric_bare_of, numeric_of, ReplyBuffer, ReplyHead};
use crate::rpl;
use crate::state::base::channel_index;
use crate::state::rfc2812::HandlerResult;
use crate::state::send::{out_extended, plain_line};
use crate::state::{channel_name_ok, delivery_views, valid_channel_name, CommandContext, Delivery, StateInner};
use crate::table::{table_get, table_get_mut};
use crate::text::{eq_fold, fold, to_vec, MINUS, PLUS};

verus! {

/// A channel after the records of a list were applied to it in order.  An
/// error record changes nothing, and neither does a record that is
/// refused.
pub open spec fn applied_all<N: NickOf>(
    ch: ChannelView,
    records: Seq<Result<ChangeView, Error>>,
    nicks: &N,
) -> ChannelView
    decreases records.len(),
{
    if records.len() == 0 {
        ch
    } else {
        let before = applied_all(ch, records.drop_last(), nicks);
        match records.last() {
            Ok(c) => apply_change(before, c, named_target(before, c, nicks)).0,
            Err(_) => before,
        }
    }
}

/// Whether one record at least of a list changes the channel when the
/// records are applied to it in order.
pub open spec fn any_applied<N: NickOf>(
    ch: ChannelView,
    records: Seq<Result<ChangeView, Error>>,
    nicks: &N,
) -> bool
    decreases records.len(),
{
    if records.len() == 0 {
        false
    } else {
        let before = applied_all(ch, records.drop_last(), nicks);
        any_applied(ch, records.drop_last(), nicks) || match records.last() {
            Ok(c) => apply_change(before, c, named_target(before, c, nicks)).1 == Ok::<bool, u16>(
                true,
            ),
            Err(_) => false,
        }
    }
}

/// A record that is applied a second time, right after the first, does
/// not change the channel: where a list of records ends in the same record
/// twice, and the channel is well formed, the last one reports no change
/// and tells nobody, unless it sets a key.
pub proof fn lemma_repeated_record_is_silent<N: NickOf>(
    ch: ChannelView,
    c: ChangeView,
    nicks: &N,
)
    requires
        crate::channel::view_wf(ch),
        !(c.kind == ModeKind::Key && c.value),
    ensures
        !any_applied(applied_all(ch, seq![Ok(c)], nicks), seq![Ok(c)], nicks),
        applied_all(applied_all(ch, seq![Ok(c)], nicks), seq![Ok(c)], nicks) == applied_all(
            ch,
            seq![Ok(c)],
            nicks,
        ),
{
    let one = seq![Ok::<ChangeView, Error>(c)];
    assert(one.drop_last() =~= Seq::<Result<ChangeView, Error>>::empty());
    assert(one.last() == Ok::<ChangeView, Error>(c));
    let once = applied_all(ch, one, nicks);
    assert(applied_all(ch, one.drop_last(), nicks) == ch);
    assert(once == apply_change(ch, c, named_target(ch, c, nicks)).0);
    assert(applied_all(once, one.drop_last(), nicks) == once);
    assert(!any_applied(once, one.drop_last(), nicks));
    crate::channel::lemma_mode_change_idempotent(ch, c, nicks);
    let first = apply_change(ch, c, named_target(ch, c, nicks));
    let second = apply_change(once, c, named_target(once, c, nicks));
    if first.1 is Err {
        crate::channel::lemma_refused_changes_nothing(ch, c, named_target(ch, c, nicks));
        assert(once == ch);
    }
}

/// The mode changes that were applied, as they are told in one line: the
/// letters with their signs, a sign standing only where it changes, and
/// the parameters of the changes.
pub struct ModeSummary {
    pub letters: Seq<u8>,
    pub args: Seq<Seq<u8>>,
    pub sign: Option<bool>,
}

/// Whether a record changes a channel.
pub open spec fn step_applied<N: NickOf>(ch: ChannelView, c: ChangeView, nicks: &N) -> bool {
    apply_change(ch, c, named_target(ch, c, nicks)).1 == Ok::<bool, u16>(true)
}

/// A summary with one more change.
pub open spec fn summarized(before: ModeSummary, c: ChangeView) -> ModeSummary {
    ModeSummary {
        letters: before.letters + (if before.sign != Some(c.value) {
            seq![if c.value {
                PLUS
            } else {
                MINUS
            }]
        } else {
            Seq::<u8>::empty()
        }) + (match crate::modes::kind_symbol(c.kind) {
            Some(letter) => seq![letter],
            None => Seq::<u8>::empty(),
        }),
        args: before.args + (match c.param {
            Some(p) => seq![p],
            None => Seq::<Seq<u8>>::empty(),
        }),
        sign: Some(c.value),
    }
}

/// The summary of the records of a list that change the channel when
/// they are applied to it in order.
pub open spec fn summary<N: NickOf>(
    ch: ChannelView,
    records: Seq<Result<ChangeView, Error>>,
    nicks: &N,
) -> ModeSummary
    decreases records.len(),
{
    if records.len() == 0 {
        ModeSummary { letters: Seq::<u8>::empty(), args: Seq::<Seq<u8>>::empty(), sign: None }
    } else {
        let before = summary(ch, records.drop_last(), nicks);
        let at = applied_all(ch, records.drop_last(), nicks);
        match records.last() {
            Ok(c) => if step_applied(at, c, nicks) {
                summarized(before, c)
            } else {
                before
            },
            Err(_) => before,
        }
    }
}

/// The replies that show the entries of a list of a channel.
pub open spec fn list_items(head: ReplyHead, code: u16, name: Seq<u8>, list: Seq<Seq<u8>>) -> Seq<
    LineView,
>
    decreases list.len(),
{
    if list.len() == 0 {
        Seq::<LineView>::empty()
    } else {
        list_items(head, code, name, list.drop_last()).push(
            numeric_bare_of(head, code, seq![name, list.last()]),
        )
    }
}

/// The replies to a query for one of the lists of a channel: its entries
/// and its end.  There are none for a record that is no such query.
pub open spec fn list_replies(head: ReplyHead, ch: ChannelView, name: Seq<u8>, kind: ModeKind) -> Seq<
    LineView,
> {
    match kind {
        ModeKind::GetBans => list_items(head, rpl::BANLIST, name, ch.ban_mask).push(
            numeric_of(head, rpl::ENDOFBANLIST, seq![name], lines::END_OF_BAN_LIST.spec_bytes()),
        ),
        ModeKind::GetExceptions => list_items(head, rpl::EXCEPTLIST, name, ch.exception_mask).push(
            numeric_of(
                head,
                rpl::ENDOFEXCEPTLIST,
                seq![name],
                lines::END_OF_EXCEPT_LIST.spec_bytes(),
            ),
        ),
        ModeKind::GetInvitations => list_items(
            head,
            rpl::INVITELIST,
            name,
            ch.invitation_mask,
        ).push(
            numeric_of(
                head,
                rpl::ENDOFINVITELIST,
                seq![name],
                lines::END_OF_INVITE_LIST.spec_bytes(),
            ),
        ),
        _ => Seq::<LineView>::empty(),
    }
}

/// The reply to a record that could not be read or was refused.
pub open spec fn mode_error(head: ReplyHead, name: Seq<u8>, code: u16, param: Option<Seq<u8>>) -> LineView {
    let p = match param {
        Some(p) => p,
        None => Seq::<u8>::empty(),
    };
    if code == rpl::ERR_KEYSET {
        numeric_of(head, code, seq![name], lines::KEY_SET.spec_bytes())
    } else if code == rpl::ERR_USERNOTINCHANNEL {
        numeric_of(head, code, seq![p, name], lines::USER_NOT_IN_CHANNEL.spec_bytes())
    } else if code == rpl::ERR_UNKNOWNMODE {
        numeric_of(head, code, seq![p], lines::UNKNOWN_MODE.spec_bytes())
    } else {
        numeric_of(
            head,
            rpl::ERR_NEEDMOREPARAMS,
            seq![crate::message::command_name(Command::Mode)],
            lines::NEED_MORE_PARAMS.spec_bytes(),
        )
    }
}

/// The replies to one record of a mode string: the list that it asks
/// for; or the refusal, where it is refused or could not be read.
pub open spec fn step_replies<N: NickOf>(
    head: ReplyHead,
    name: Seq<u8>,
    ch: ChannelView,
    record: Result<ChangeView, Error>,
    nicks: &N,
) -> Seq<LineView> {
    match record {
        Ok(c) => list_replies(head, ch, name, c.kind) + (match apply_change(
            ch,
            c,
            named_target(ch, c, nicks),
        ).1 {
            Err(code) => seq![mode_error(head, name, code, c.param)],
            Ok(_) => Seq::<LineView>::empty(),
        }),
        Err(Error::UnknownMode(letter)) => seq![
            mode_error(head, name, rpl::ERR_UNKNOWNMODE, Some(seq![letter])),
        ],
        Err(_) => seq![mode_error(head, name, rpl::ERR_NEEDMOREPARAMS, None)],
    }
}

/// The replies to the records of a mode string, in order; each record is
/// answered by the channel as the records before it have left it.
pub open spec fn mode_replies<N: NickOf>(
    head: ReplyHead,
    name: Seq<u8>,
    ch: ChannelView,
    records: Seq<Result<ChangeView, Error>>,
    nicks: &N,
) -> Seq<LineView>
    decreases records.len(),
{
    if records.len() == 0 {
        Seq::<LineView>::empty()
    } else {
        mode_replies(head, name, ch, records.drop_last(), nicks) + step_replies(
            head,
            name,
            applied_all(ch, records.drop_last(), nicks),
            records.last(),
            nicks,
        )
    }
}

impl<P: Provider> StateInner<P> {
    /// Stages one of the lists of a channel, entry by entry, and its end.
    fn send_list(&self, rb: &mut ReplyBuffer, at: usize, name: &[u8], kind: ModeKind)
        requires
            old(rb).wf(),
            at < self.channels@.len(),
        ensures
            final(rb).wf(),
            old(rb).extended_by(final(rb)),
            final(rb).staged() == old(rb).staged() + list_replies(
                old(rb).head(),
                self.channels@[at as int].chan@,
                name@,
                kind,
            ),
    {
        let chan = &self.channels[at].chan;
        let (list, item, end, text) = match kind {
            ModeKind::GetBans => (
                &chan.ban_mask,
                rpl::BANLIST,
                rpl::ENDOFBANLIST,
                lines::END_OF_BAN_LIST,
            ),
            ModeKind::GetExceptions => (
                &chan.exception_mask,
                rpl::EXCEPTLIST,
                rpl::ENDOFEXCEPTLIST,
                lines::END_OF_EXCEPT_LIST,
            ),
            ModeKind::GetInvitations => (
                &chan.invitation_mask,
                rpl::INVITELIST,
                rpl::ENDOFINVITELIST,
                lines::END_OF_INVITE_LIST,
            ),
            _ => {
                assert(rb.staged() =~= old(rb).staged() + list_replies(
                    old(rb).head(),
                    self.channels@[at as int].chan@,
                    name@,
                    kind,
                ));
                return ;
            },
        };
        let ghost head = old(rb).head();
        let ghost entries = crate::text::views(list@);
        let mut i: usize = 0;
        assert(entries.subrange(0, 0) =~= Seq::<Seq<u8>>::empty());
        assert(rb.staged() =~= old(rb).staged() + list_items(
            head,
            item,
            name@,
            entries.subrange(0, 0),
        ));
        while i < list.len()
            invariant
                i <= list@.len(),
                rb.wf(),
                old(rb).extended_by(rb),
                head == old(rb).head(),
                entries == crate::text::views(list@),
                rb.staged() == old(rb).staged() + list_items(
                    head,
                    item,
                    name@,
                    entries.subrange(0, i as int),
                ),
            decreases list@.len() - i,
        {
            let ghost now = entries.subrange(0, i + 1);
            assert(now.drop_last() =~= entries.subrange(0, i as int));
            assert(now.last() == list@[i as int]@);
            let ghost start = rb.reply_head(item);
            let msg = rb.reply(item).param(name).param(list[i].as_slice());
            proof {
                crate::reply::lemma_with_params_2(start, name@, list@[i as int]@);
            }
            rb.push(msg);
            assert(rb.staged() =~= old(rb).staged() + list_items(head, item, name@, now));
            i += 1;
        }
        assert(entries.subrange(0, list@.len() as int) =~= entries);
        rb.reply1(end, name, text.as_bytes());
        assert(rb.staged() =~= old(rb).staged() + list_replies(
            head,
            self.channels@[at as int].chan@,
            name@,
            kind,
        ));
    }

    /// Stages the reply to a record that could not be read or was
    /// refused.
    fn send_mode_error(rb: &mut ReplyBuffer, name: &[u8], code: u16, param: Option<&[u8]>)
        requires
            old(rb).wf(),
        ensures
            final(rb).wf(),
            old(rb).extended_by(final(rb)),
            final(rb).staged() == old(rb).staged().push(
                mode_error(
                    old(rb).head(),
                    name@,
                    code,
                    match param {
                        Some(p) => Some(p@),
                        None => None,
                    },
                ),
            ),
    {
        let none: Vec<u8> = Vec::new();
        assert(none@ =~= Seq::<u8>::empty());
        let p = match param {
            Some(p) => p,
            None => none.as_slice(),
        };
        if code == rpl::ERR_KEYSET {
            rb.reply1(code, name, lines::KEY_SET.as_bytes());
        } else if code == rpl::ERR_USERNOTINCHANNEL {
            rb.reply2(code, p, name, lines::USER_NOT_IN_CHANNEL.as_bytes());
        } else if code == rpl::ERR_UNKNOWNMODE {
            rb.reply1(code, p, lines::UNKNOWN_MODE.as_bytes());
        } else {
            let command = Command::Mode.name();
            rb.reply1(
                rpl::ERR_NEEDMOREPARAMS,
                command.as_slice(),
                lines::NEED_MORE_PARAMS.as_bytes(),
            );
        }
    }

    /// The numeric reply that refuses a `MODE` for a channel: there is no
    /// such channel; or, where there is a mode string, the client is no
    /// member of the channel, or no operator of it.
    pub open spec fn mode_refusal(&self, id: usize, name: Seq<u8>, modes: Seq<u8>) -> Option<u16> {
        let at = channel_index(self.channels@, fold(name));
        if !(0 <= at < self.channels@.len()) {
            Some(rpl::ERR_NOSUCHCHANNEL)
        } else if modes.len() == 0 {
            None
        } else {
            let members = self.channels@[at].chan@.members;
            if !is_member(members, id) {
                Some(rpl::ERR_NOTONCHANNEL)
            } else if !members[member_index(members, id)].modes.operator {
                Some(rpl::ERR_CHANOPRIVSNEEDED)
            } else {
                None
            }
        }
    }

    /// The line that tells the members of a channel of the changes of its
    /// modes.
    pub open spec fn mode_line(c: ClientView, name: Seq<u8>, changes: ModeSummary) -> LineView {
        crate::state::send::plain(
            crate::client::full_name(c),
            crate::message::command_name(Command::Mode),
            seq![name, changes.letters] + changes.args,
            None,
        )
    }

    /// What `MODE` for a channel does to the state, to the replies and to the
    /// deliveries; `r` is what its handler returns.
    pub open spec fn mode_chan_outcome(
        before: &Self,
        after: &Self,
        ctx: &CommandContext,
        rb_before: &ReplyBuffer,
        rb_after: &ReplyBuffer,
        out_before: Seq<Delivery>,
        out_after: Seq<Delivery>,
        name: Seq<u8>,
        modes: Seq<u8>,
        params: Seq<Seq<u8>>,
        r: Result<(), ()>,
    ) -> bool {
        &&& (after.same_but_channels(before))
        &&& (after.channels@.len() == before.channels@.len())
        &&& (r.is_ok() == before.mode_refusal(ctx.id, name, modes).is_none())
        &&& (match before.mode_refusal(ctx.id, name, modes) {
                Some(code) => after.channels == before.channels && delivery_views(
                    out_after,
                ) == delivery_views(out_before) && rb_after.staged() == rb_before.staged().push(
                    Self::channel_refusal(rb_before, code, name, seq![]),
                ),
                None => {
                    let at = channel_index(before.channels@, fold(name));
                    let ch = before.channels@[at].chan@;
                    if modes.len() == 0 {
                        &&& after.channels == before.channels
                        &&& delivery_views(out_after) == delivery_views(out_before)
                        &&& rb_after.staged() == rb_before.staged().push(
                            LineView {
                                tags: crate::reply::reply_tags(rb_before.label@, rb_before.batch@),
                                body: crate::channel::mode_params(
                                    crate::buffer::with_param(
                                        rb_before.reply_head(rpl::CHANNELMODEIS),
                                        name,
                                    ),
                                    ch,
                                    is_member(ch.members, ctx.id),
                                ) + crate::buffer::crlf(),
                            },
                        )
                    } else {
                        let records = crate::modes::channel_changes(
                            modes,
                            0,
                            true,
                            params,
                            0,
                        );
                        &&& after.channels@[at].chan@ == applied_all(
                            ch,
                            records,
                            &before.clients,
                        )
                        &&& forall|i: int|
                            0 <= i < before.channels@.len() && i != at ==> #[trigger] after.channels@[i] == before.channels@[i]
                        &&& rb_after.staged() == rb_before.staged() + mode_replies(
                            rb_before.head(),
                            name,
                            ch,
                            records,
                            &before.clients,
                        )
                        &&& delivery_views(out_after) == delivery_views(out_before) + (
                        if any_applied(ch, records, &before.clients) {
                            crate::state::send::sent_to(
                                before.clients(),
                                crate::state::send::recipients(
                                    before.clients(),
                                    after.channels@[at].chan@.members,
                                    Command::Mode,
                                    None,
                                ),
                                Self::mode_line(
                                    before.client(ctx.id),
                                    name,
                                    summary(ch, records, &before.clients),
                                ),
                            )
                        } else {
                            Seq::<crate::state::DeliveryView>::empty()
                        })
                        &&& any_applied(ch, records, &before.clients) == (delivery_views(
                            out_after,
                        ).len() > delivery_views(out_before).len())
                    }
                },
            })
    }

    /// `MODE` for a channel.  Without a mode string the modes of the
    /// channel are shown, with the user limit and the key for a member.
    /// With one, an operator of the channel has its records applied in
    /// order, and is sent the lists that they ask for and the refusals.
    /// The records that change the channel are told to every member in
    /// one line; where none does, nobody is told.
    pub fn cmd_mode_chan(
        &mut self,
        ctx: &CommandContext,
        rb: &mut ReplyBuffer,
        out: &mut Vec<Delivery>,
        name: &[u8],
        modes: &[u8],
        params: &[Vec<u8>],
    ) -> (r: HandlerResult)
        requires
            old(self).wf(),
            old(self).has_client(ctx.id),
            old(rb).wf(),
        ensures
            final(self).wf(),
            final(rb).wf(),
            old(rb).extended_by(final(rb)),
            out_extended(old(out)@, final(out)@),
            Self::mode_chan_outcome(old(self), final(self), ctx, old(rb), final(rb), old(out)@, final(out)@, name@, modes@, crate::modes::params_view(params@), r),
    {
        let at = match self.find_channel(rb, name) {
            Some(at) => at,
            None => {
                return Err(());
            },
        };
        if modes.len() == 0 {
            let full_info = self.channels[at].chan.has_member(ctx.id);
            let msg = rb.reply(rpl::CHANNELMODEIS).param(name);
            let msg = self.channels[at].chan.modes(msg, full_info);
            rb.push(msg);
            return Ok(());
        }
        let member = match Self::find_member(ctx.id, rb, &self.channels[at].chan, name) {
            Some(member) => member,
            None => {
                return Err(());
            },
        };
        if !member.operator {
            rb.reply1(rpl::ERR_CHANOPRIVSNEEDED, name, lines::CHAN_O_PRIVS_NEEDED.as_bytes());
            return Err(());
        }
        let records = ChannelQuery::collect(modes, params);
        let ghost start = self.channels@[at as int].chan@;
        let (changed, letters, args) = self.apply_records(rb, at, name, &records);
        let ghost changes = summary(start, records_view(records@), &old(self).clients);
        if changed {
            self.tell_modes(ctx, out, at, name, letters, &args, Ghost(changes));
        } else {
            assert(delivery_views(out@) =~= delivery_views(old(out)@)
                + Seq::<crate::state::DeliveryView>::empty());
        }
        Ok(())
    }

    /// Tells the members of the channel at `at` of the changes of its
    /// modes.
    fn tell_modes(
        &self,
        ctx: &CommandContext,
        out: &mut Vec<Delivery>,
        at: usize,
        name: &[u8],
        letters: Vec<u8>,
        args: &Vec<Vec<u8>>,
        Ghost(changes): Ghost<ModeSummary>,
    )
        requires
            self.wf(),
            self.has_client(ctx.id),
            at < self.channels@.len(),
            changes.letters == letters@,
            changes.args == crate::text::views(args@),
        ensures
            out_extended(old(out)@, final(out)@),
            delivery_views(final(out)@) == delivery_views(old(out)@) + crate::state::send::sent_to(
                self.clients(),
                crate::state::send::recipients(
                    self.clients(),
                    self.channels@[at as int].chan@.members,
                    Command::Mode,
                    None,
                ),
                Self::mode_line(self.client(ctx.id), name@, changes),
            ),
            delivery_views(final(out)@).len() > delivery_views(old(out)@).len(),
    {
        let full = match table_get(&self.clients, ctx.id) {
            Some(client) => client.full_name(),
            None => Vec::new(),
        };
        let mut list: Vec<Vec<u8>> = Vec::new();
        list.push(to_vec(name));
        list.push(letters);
        let ghost first = crate::text::views(list@);
        let ghost rest = crate::text::views(args@);
        let mut k: usize = 0;
        assert(first =~= seq![name@, changes.letters]);
        assert(rest.subrange(0, 0) =~= Seq::<Seq<u8>>::empty());
        assert(crate::text::views(list@) =~= first + rest.subrange(0, 0));
        while k < args.len()
            invariant
                k <= args@.len(),
                rest == crate::text::views(args@),
                crate::text::views(list@) == first + rest.subrange(0, k as int),
            decreases args@.len() - k,
        {
            let ghost before = crate::text::views(list@);
            list.push(to_vec(args[k].as_slice()));
            proof {
                assert(rest[k as int] == args@[k as int]@);
                assert(crate::text::views(list@) =~= before.push(rest[k as int]));
                assert(rest.subrange(0, k + 1) =~= rest.subrange(0, k as int).push(rest[k as int]));
                assert(crate::text::views(list@) =~= first + rest.subrange(0, k + 1));
            }
            k += 1;
        }
        assert(rest.subrange(0, args@.len() as int) =~= rest);
        let command = Command::Mode.name();
        let line = plain_line(full.as_slice(), command.as_slice(), &list, None);
        self.broadcast(out, at, &line, Command::Mode, None);
        proof {
            self.lemma_member_is_told(at as int, ctx.id, line@);
        }
    }

    /// Applies the records of a mode string to the channel at `at` in
    /// order, stages the replies to them, and returns whether one of them
    /// changed the channel, with the letters and the parameters of those
    /// that did.
    fn apply_records(
        &mut self,
        rb: &mut ReplyBuffer,
        at: usize,
        name: &[u8],
        records: &Vec<Result<ChannelModeChange, Error>>,
    ) -> (r: (bool, Vec<u8>, Vec<Vec<u8>>))
        requires
            old(self).wf(),
            old(rb).wf(),
            at < old(self).channels@.len(),
        ensures
            final(self).wf(),
            final(rb).wf(),
            old(rb).extended_by(final(rb)),
            final(self).same_but_channels(old(self)),
            final(self).channels@.len() == old(self).channels@.len(),
            forall|k: int|
                0 <= k < old(self).channels@.len() && k != at ==> #[trigger] final(self).channels@[k] == old(self).channels@[k],
            final(self).channels@[at as int].key@ == old(self).channels@[at as int].key@,
            final(self).channels@[at as int].chan@ == applied_all(
                old(self).channels@[at as int].chan@,
                records_view(records@),
                &old(self).clients,
            ),
            r.0 == any_applied(
                old(self).channels@[at as int].chan@,
                records_view(records@),
                &old(self).clients,
            ),
            summary(
                old(self).channels@[at as int].chan@,
                records_view(records@),
                &old(self).clients,
            ).letters == r.1@,
            summary(
                old(self).channels@[at as int].chan@,
                records_view(records@),
                &old(self).clients,
            ).args == crate::text::views(r.2@),
            final(rb).staged() == old(rb).staged() + mode_replies(
                old(rb).head(),
                name@,
                old(self).channels@[at as int].chan@,
                records_view(records@),
                &old(self).clients,
            ),
    {
        let ghost all = records_view(records@);
        let ghost start = self.channels@[at as int].chan@;
        let ghost head = old(rb).head();
        let mut letters: Vec<u8> = Vec::new();
        let mut args: Vec<Vec<u8>> = Vec::new();
        let mut sign: Option<bool> = None;
        let mut changed = false;
        let mut i: usize = 0;
        assert(all.subrange(0, 0) =~= Seq::<Result<ChangeView, Error>>::empty());
        assert(crate::text::views(args@) =~= Seq::<Seq<u8>>::empty());
        assert(rb.staged() =~= old(rb).staged() + mode_replies(
            head,
            name@,
            start,
            all.subrange(0, 0),
            &old(self).clients,
        ));
        while i < records.len()
            invariant
                i <= records@.len(),
                all == records_view(records@),
                at < self.channels@.len(),
                self.wf(),
                self.same_but_channels(old(self)),
                self.channels@.len() == old(self).channels@.len(),
                forall|k: int|
                    0 <= k < old(self).channels@.len() && k != at ==> #[trigger] self.channels@[k]
                        == old(self).channels@[k],
                self.channels@[at as int].key@ == old(self).channels@[at as int].key@,
                start == old(self).channels@[at as int].chan@,
                head == old(rb).head(),
                self.channels@[at as int].chan@ == applied_all(
                    start,
                    all.subrange(0, i as int),
                    &old(self).clients,
                ),
                changed == any_applied(start, all.subrange(0, i as int), &old(self).clients),
                summary(start, all.subrange(0, i as int), &old(self).clients) == (ModeSummary {
                    letters: letters@,
                    args: crate::text::views(args@),
                    sign,
                }),
                rb.wf(),
                old(rb).extended_by(rb),
                rb.staged() == old(rb).staged() + mode_replies(
                    head,
                    name@,
                    start,
                    all.subrange(0, i as int),
                    &old(self).clients,
                ),
            decreases records@.len() - i,
        {
            let ghost done = all.subrange(0, i as int);
            let ghost now = all.subrange(0, i + 1);
            assert(now.drop_last() =~= done);
            assert(now.last() == all[i as int]);
            let (applied, letters1, args1, sign1) = self.apply_record(
                rb,
                at,
                name,
                &records[i],
                letters,
                args,
                sign,
                Ghost(summary(start, done, &old(self).clients)),
            );
            proof {
                let replied = mode_replies(head, name@, start, done, &old(self).clients);
                let here = applied_all(start, done, &old(self).clients);
                assert(rb.staged() =~= old(rb).staged() + (replied + step_replies(
                    head,
                    name@,
                    here,
                    all[i as int],
                    &old(self).clients,
                )));
            }
            changed = changed || applied;
            letters = letters1;
            args = args1;
            sign = sign1;
            i += 1;
        }
        assert(all.subrange(0, records@.len() as int) =~= all);
        (changed, letters, args)
    }

    /// Applies one record of a mode string to the channel at `at`, stages
    /// the replies to it, and adds it to the summary of the changes if it
    /// changed the channel.
    fn apply_record(
        &mut self,
        rb: &mut ReplyBuffer,
        at: usize,
        name: &[u8],
        record: &Result<ChannelModeChange, Error>,
        letters: Vec<u8>,
        args: Vec<Vec<u8>>,
        sign: Option<bool>,
        Ghost(before): Ghost<ModeSummary>,
    ) -> (r: (bool, Vec<u8>, Vec<Vec<u8>>, Option<bool>))
        requires
            old(self).wf(),
            old(rb).wf(),
            at < old(self).channels@.len(),
            before == (ModeSummary { letters: letters@, args: crate::text::views(args@), sign }),
        ensures
            final(self).wf(),
            final(rb).wf(),
            old(rb).extended_by(final(rb)),
            final(self).same_but_channels(old(self)),
            final(self).channels@.len() == old(self).channels@.len(),
            forall|k: int|
                0 <= k < old(self).channels@.len() && k != at ==> #[trigger] final(self).channels@[k] == old(self).channels@[k],
            final(self).channels@[at as int].key@ == old(self).channels@[at as int].key@,
            final(rb).staged() == old(rb).staged() + step_replies(
                old(rb).head(),
                name@,
                old(self).channels@[at as int].chan@,
                match record {
                    Ok(c) => Ok::<ChangeView, Error>(c@),
                    Err(e) => Err(*e),
                },
                &old(self).clients,
            ),
            match record {
                Ok(c) => {
                    let ch = old(self).channels@[at as int].chan@;
                    &&& final(self).channels@[at as int].chan@ == apply_change(
                        ch,
                        c@,
                        named_target(ch, c@, &old(self).clients),
                    ).0
                    &&& r.0 == step_applied(ch, c@, &old(self).clients)
                    &&& (ModeSummary { letters: r.1@, args: crate::text::views(r.2@), sign: r.3 })
                        == (if r.0 {
                        summarized(before, c@)
                    } else {
                        before
                    })
                },
                Err(_) => final(self).channels@[at as int].chan@ == old(self).channels@[at as int].chan@ && !r.0 && r.1@ == letters@ && r.2@ == args@ && r.3
                    == sign,
            },
    {
        let mut letters = letters;
        let mut args = args;
        let mut sign = sign;
        match record {
            Ok(change) => {
                let kind = change.kind();
                self.send_list(rb, at, name, kind);
                let ghost listed = rb.staged();
                match self.apply_to_channel(at, change) {
                    Ok(true) => {
                        let value = change.value();
                        let ghost letters0 = letters@;
                        let ghost args0 = crate::text::views(args@);
                        if sign != Some(value) {
                            letters.push(
                                if value {
                                    PLUS
                                } else {
                                    MINUS
                                },
                            );
                        }
                        match change.symbol() {
                            Some(letter) => letters.push(letter),
                            None => {},
                        }
                        match change.param() {
                            Some(p) => args.push(to_vec(p)),
                            None => {},
                        }
                        proof {
                            let s1 = summarized(before, change@);
                            assert(letters@ =~= s1.letters);
                            assert(crate::text::views(args@) =~= s1.args);
                            assert(rb.staged() =~= old(rb).staged() + step_replies(
                                old(rb).head(),
                                name@,
                                old(self).channels@[at as int].chan@,
                                Ok(change@),
                                &old(self).clients,
                            ));
                        }
                        (true, letters, args, Some(value))
                    },
                    Ok(false) => {
                        proof {
                            assert(rb.staged() =~= old(rb).staged() + step_replies(
                                old(rb).head(),
                                name@,
                                old(self).channels@[at as int].chan@,
                                Ok(change@),
                                &old(self).clients,
                            ));
                        }
                        (false, letters, args, sign)
                    },
                    Err(code) => {
                        Self::send_mode_error(rb, name, code, change.param());
                        proof {
                            crate::channel::lemma_refused_changes_nothing(
                                old(self).channels@[at as int].chan@,
                                change@,
                                named_target(
                                    old(self).channels@[at as int].chan@,
                                    change@,
                                    &old(self).clients,
                                ),
                            );
                            assert(rb.staged() =~= old(rb).staged() + step_replies(
                                old(rb).head(),
                                name@,
                                old(self).channels@[at as int].chan@,
                                Ok(change@),
                                &old(self).clients,
                            ));
                        }
                        (false, letters, args, sign)
                    },
                }
            },
            Err(Error::UnknownMode(letter)) => {
                let mut shown: Vec<u8> = Vec::new();
                shown.push(*letter);
                assert(shown@ =~= seq![*letter]);
                Self::send_mode_error(rb, name, rpl::ERR_UNKNOWNMODE, Some(shown.as_slice()));
                assert(rb.staged() =~= old(rb).staged() + step_replies(
                    old(rb).head(),
                    name@,
                    old(self).channels@[at as int].chan@,
                    Err(Error::UnknownMode(*letter)),
                    &old(self).clients,
                ));
                (false, letters, args, sign)
            },
            Err(e) => {
                Self::send_mode_error(rb, name, rpl::ERR_NEEDMOREPARAMS, None);
                assert(rb.staged() =~= old(rb).staged() + step_replies(
                    old(rb).head(),
                    name@,
                    old(self).channels@[at as int].chan@,
                    Err(*e),
                    &old(self).clients,
                ));
                (false, letters, args, sign)
            },
        }
    }

    /// A line that goes to all the members of a channel goes to one client
    /// at least, where a client is a member.
    pub proof fn lemma_member_is_told(&self, at: int, id: usize, line: crate::buffer::LineView)
        requires
            self.wf(),
            0 <= at < self.channels@.len(),
        ensures
            crate::state::send::sent_to(
                self.clients(),
                crate::state::send::recipients(
                    self.clients(),
                    self.channels@[at].chan@.members,
                    Command::Mode,
                    None,
                ),
                line,
            ).len() > 0,
    {
        let members = self.channels@[at].chan@.members;
        assert(self.channels@[at].chan.wf());
        assert(crate::state::members_known(self.clients(), members));
        crate::state::send::lemma_all_told(self.clients(), members, Command::Mode, line);
    }

    /// The modes of a client after the records of a list were applied to
    /// them in order; an error record changes nothing.
    pub open spec fn user_modes_after(
        c: ClientView,
        records: Seq<Result<UserModeChange, Error>>,
    ) -> ClientView
        decreases records.len(),
    {
        if records.len() == 0 {
            c
        } else {
            let before = Self::user_modes_after(c, records.drop_last());
            match records.last() {
                Ok(UserModeChange::Invisible(v)) => ClientView { invisible: v, ..before },
                Ok(UserModeChange::Wallops(v)) => ClientView { wallops: v, ..before },
                Ok(UserModeChange::ServerNotices(v)) => ClientView { server_notices: v, ..before },
                Err(_) => before,
            }
        }
    }

    /// The modes of a client are all that mode records change of it.
    pub proof fn lemma_user_modes_keep(c: ClientView, records: Seq<Result<UserModeChange, Error>>)
        ensures
            Self::user_modes_after(c, records).host == c.host,
            Self::user_modes_after(c, records).nick == c.nick,
            Self::user_modes_after(c, records).user == c.user,
            Self::user_modes_after(c, records).real == c.real,
            Self::user_modes_after(c, records).capabilities == c.capabilities,
            Self::user_modes_after(c, records).state == c.state,
            Self::user_modes_after(c, records).auth_id == c.auth_id,
            Self::user_modes_after(c, records).auth_buffer == c.auth_buffer,
            Self::user_modes_after(c, records).identity == c.identity,
            Self::user_modes_after(c, records).operator == c.operator,
            Self::user_modes_after(c, records).away_message == c.away_message,
            Self::user_modes_after(c, records).signon_time == c.signon_time,
            Self::user_modes_after(c, records).last_action_time == c.last_action_time,
        decreases records.len(),
    {
        if records.len() > 0 {
            Self::lemma_user_modes_keep(c, records.drop_last());
            let before = Self::user_modes_after(c, records.drop_last());
            match records.last() {
                Ok(UserModeChange::Invisible(v)) => {
                    assert(Self::user_modes_after(c, records) == (ClientView {
                        invisible: v,
                        ..before
                    }));
                },
                Ok(UserModeChange::Wallops(v)) => {
                    assert(Self::user_modes_after(c, records) == (ClientView {
                        wallops: v,
                        ..before
                    }));
                },
                Ok(UserModeChange::ServerNotices(v)) => {
                    assert(Self::user_modes_after(c, records) == (ClientView {
                        server_notices: v,
                        ..before
                    }));
                },
                Err(_) => {
                    assert(Self::user_modes_after(c, records) == before);
                },
            }
        }
    }

    /// Whether a list of records holds an error record.
    pub open spec fn any_error(records: Seq<Result<UserModeChange, Error>>) -> bool {
        exists|i: int| 0 <= i < records.len() && (#[trigger] records[i]) is Err
    }

    /// The letters of the modes of a client, behind a `+`.
    pub open spec fn user_mode_letters(c: ClientView) -> Seq<u8> {
        seq![PLUS] + crate::channel::letter_if(c.invisible, crate::modes::MODE_INVISIBLE)
            + crate::channel::letter_if(c.wallops, crate::modes::MODE_WALLOPS)
            + crate::channel::letter_if(c.server_notices, crate::modes::MODE_SERVER_NOTICES)
    }

    /// What `MODE` for a client does to the state and to the replies; `r` is what its
    /// handler returns.
    pub open spec fn mode_user_outcome(
        before: &Self,
        after: &Self,
        ctx: &CommandContext,
        rb_before: &ReplyBuffer,
        rb_after: &ReplyBuffer,
        target: Seq<u8>,
        modes: Seq<u8>,
        r: Result<(), ()>,
    ) -> bool {
        &&& (after.has_client(ctx.id))
        &&& (after.same_but_clients(before))
        &&& (r.is_ok() == (fold(target) == fold(before.client(ctx.id).nick)))
        &&& (r.is_err() ==> after.clients == before.clients && rb_after.staged() == rb_before.staged().push(
                rb_before.numeric(
                    rpl::ERR_USERSDONTMATCH,
                    seq![],
                    lines::USERS_DONT_MATCH.spec_bytes(),
                ),
            ))
        &&& (r.is_ok() ==> {
                let records = crate::modes::user_changes(modes, 0, true);
                let client = Self::user_modes_after(before.client(ctx.id), records);
                &&& after.clients() == before.clients().insert(
                    ctx.id,
                    after.clients()[ctx.id],
                )
                &&& after.client(ctx.id) == client
                &&& client.nick == before.client(ctx.id).nick
                &&& client.user == before.client(ctx.id).user
                &&& client.real == before.client(ctx.id).real
                &&& client.state == before.client(ctx.id).state
                &&& client.auth_id == before.client(ctx.id).auth_id
                &&& rb_after.staged() == rb_before.staged() + (if Self::any_error(records) {
                    seq![
                        rb_before.numeric(
                            rpl::ERR_UMODEUNKNOWNFLAG,
                            seq![],
                            lines::USER_MODE_UNKNOWN_FLAG.spec_bytes(),
                        ),
                    ]
                } else {
                    Seq::<crate::buffer::LineView>::empty()
                }) + seq![
                    rb_before.numeric_bare(rpl::UMODEIS, seq![Self::user_mode_letters(client)]),
                ]
            })
    }

    /// `MODE` for a client, which may ask for its own modes and change
    /// them.  The records of the mode string are applied in order; the
    /// client is told if one of them is none, and is told its modes.
    pub fn cmd_mode_user(
        &mut self,
        ctx: &CommandContext,
        rb: &mut ReplyBuffer,
        target: &[u8],
        modes: &[u8],
    ) -> (r: HandlerResult)
        requires
            old(self).wf(),
            old(self).has_client(ctx.id),
            old(rb).wf(),
        ensures
            final(self).wf(),
            final(rb).wf(),
            old(rb).extended_by(final(rb)),
            Self::mode_user_outcome(old(self), final(self), ctx, old(rb), final(rb), target@, modes@, r),
    {
        let own = match table_get(&self.clients, ctx.id) {
            Some(client) => eq_fold(client.nick.as_slice(), target),
            None => false,
        };
        if !own {
            rb.reply0(rpl::ERR_USERSDONTMATCH, lines::USERS_DONT_MATCH.as_bytes());
            return Err(());
        }
        let records = UserQuery::collect(modes);
        let ghost before = *self;
        let ghost c = self.client(ctx.id);
        let client = table_get_mut(&mut self.clients, ctx.id);
        let mut invisible = client.invisible;
        let mut wallops = client.wallops;
        let mut server_notices = client.server_notices;
        let mut unknown = false;
        let mut i: usize = 0;
        assert(records@.subrange(0, 0) =~= Seq::<Result<UserModeChange, Error>>::empty());
        while i < records.len()
            invariant
                i <= records@.len(),
                Self::user_modes_after(c, records@.subrange(0, i as int)) == (ClientView {
                    invisible,
                    wallops,
                    server_notices,
                    ..c
                }),
                unknown == Self::any_error(records@.subrange(0, i as int)),
            decreases records@.len() - i,
        {
            let ghost done = records@.subrange(0, i as int);
            let ghost now = records@.subrange(0, i + 1);
            assert(now.drop_last() =~= done);
            assert(now.last() == records@[i as int]);
            proof {
                if Self::any_error(done) {
                    let k = choose|k: int| 0 <= k < done.len() && (#[trigger] done[k]) is Err;
                    assert(now[k] is Err);
                }
                if Self::any_error(now) && !(records@[i as int] is Err) {
                    let k = choose|k: int| 0 <= k < now.len() && (#[trigger] now[k]) is Err;
                    assert(done[k] is Err);
                }
                if records@[i as int] is Err {
                    assert(now[i as int] is Err);
                }
            }
            match records[i] {
                Ok(UserModeChange::Invisible(v)) => {
                    invisible = v;
                },
                Ok(UserModeChange::Wallops(v)) => {
                    wallops = v;
                },
                Ok(UserModeChange::ServerNotices(v)) => {
                    server_notices = v;
                },
                Err(_) => {
                    unknown = true;
                },
            }
            i += 1;
        }
        assert(records@.subrange(0, records@.len() as int) =~= records@);
        client.invisible = invisible;
        client.wallops = wallops;
        client.server_notices = server_notices;
        proof {
            Self::lemma_client_changed(&before, self, ctx.id);
        }
        if unknown {
            rb.reply0(rpl::ERR_UMODEUNKNOWNFLAG, lines::USER_MODE_UNKNOWN_FLAG.as_bytes());
        }
        let mut letters: Vec<u8> = Vec::new();
        letters.push(PLUS);
        if invisible {
            letters.push(crate::modes::MODE_INVISIBLE);
        }
        if wallops {
            letters.push(crate::modes::MODE_WALLOPS);
        }
        if server_notices {
            letters.push(crate::modes::MODE_SERVER_NOTICES);
        }
        assert(letters@ =~= Self::user_mode_letters(self.client(ctx.id)));
        let ghost head = rb.reply_head(rpl::UMODEIS);
        let msg = rb.reply(rpl::UMODEIS).param(letters.as_slice());
        proof {
            crate::reply::lemma_with_params_1(head, letters@);
        }
        rb.push(msg);
        proof {
            let all = crate::modes::user_changes(modes@, 0, true);
            let after = Self::user_modes_after(c, all);
            Self::lemma_user_modes_keep(c, all);
            assert(rb.staged() =~= old(rb).staged() + (if Self::any_error(all) {
                seq![
                    old(rb).numeric(
                        rpl::ERR_UMODEUNKNOWNFLAG,
                        seq![],
                        lines::USER_MODE_UNKNOWN_FLAG.spec_bytes(),
                    ),
                ]
            } else {
                Seq::<crate::buffer::LineView>::empty()
            }) + seq![old(rb).numeric_bare(rpl::UMODEIS, seq![Self::user_mode_letters(after)])]);
        }
        Ok(())
    }

    /// Whether a `MODE` command succeeds.  For a channel, the channel must
    /// exist, and where there is a mode string the client must be an
    /// operator of it.  For a client, the target must be its own nickname.
    pub open spec fn mode_succeeds(&self, id: usize, target: Seq<u8>, modes: Seq<u8>) -> bool {
        if valid_channel_name(target, self.channellen as int) {
            self.mode_refusal(id, target, modes).is_none()
        } else {
            fold(target) == fold(self.client(id).nick)
        }
    }

    /// What `MODE` does to the state, to the replies and to the
    /// deliveries: what it does for a channel where the target can be the
    /// name of one, else what it does for a client, and nothing is
    /// delivered then.  `r` is what its handler returns.
    pub open spec fn mode_outcome(
        before: &Self,
        after: &Self,
        ctx: &CommandContext,
        rb_before: &ReplyBuffer,
        rb_after: &ReplyBuffer,
        out_before: Seq<Delivery>,
        out_after: Seq<Delivery>,
        target: Seq<u8>,
        modes: Seq<u8>,
        params: Seq<Seq<u8>>,
        r: Result<(), ()>,
    ) -> bool {
        if valid_channel_name(target, before.channellen as int) {
            Self::mode_chan_outcome(
                before,
                after,
                ctx,
                rb_before,
                rb_after,
                out_before,
                out_after,
                target,
                modes,
                params,
                r,
            )
        } else {
            &&& out_after == out_before
            &&& Self::mode_user_outcome(before, after, ctx, rb_before, rb_after, target, modes, r)
        }
    }

    /// `MODE`: for a channel where the target can be the name of one, else
    /// for a client.
    pub fn cmd_mode(
        &mut self,
        ctx: &CommandContext,
        rb: &mut ReplyBuffer,
        out: &mut Vec<Delivery>,
        target: &[u8],
        modes: &[u8],
        params: &[Vec<u8>],
    ) -> (r: HandlerResult)
        requires
            old(self).wf(),
            old(self).has_client(ctx.id),
            old(rb).wf(),
        ensures
            final(self).wf(),
            final(rb).wf(),
            old(rb).extended_by(final(rb)),
            out_extended(old(out)@, final(out)@),
            final(self).has_client(ctx.id),
            final(self).same_config(old(self)),
            final(self).nicks == old(self).nicks,
            r.is_ok() == old(self).mode_succeeds(ctx.id, target@, modes@),
            final(self).client(ctx.id).nick == old(self).client(ctx.id).nick,
            final(self).client(ctx.id).state == old(self).client(ctx.id).state,
            final(self).client(ctx.id).user == old(self).client(ctx.id).user,
            final(self).client(ctx.id).real == old(self).client(ctx.id).real,
            final(self).client(ctx.id).auth_id == old(self).client(ctx.id).auth_id,
            Self::mode_outcome(old(self), final(self), ctx, old(rb), final(rb), old(out)@, final(out)@, target@, modes@, crate::modes::params_view(params@), r),
    {
        if channel_name_ok(target, self.channellen) {
            self.cmd_mode_chan(ctx, rb, out, target, modes, params)
        } else {
            self.cmd_mode_user(ctx, rb, target, modes)
        }
    }
}

} // verus!
