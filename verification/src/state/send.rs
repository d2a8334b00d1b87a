//! Sending: to one client, to the members of a channel, and to all the
//! clients that share a channel with one.

use vstd::prelude::*;
use crate::auth::Provider;
use crate::buffer::{Line, LineView};
use crate::channel::{is_member, lemma_member_index, Member};
use crate::client::{Client, ClientView};
use crate::message::Command;
use crate::state::base::{entry_views, EntryView};
use crate::state::{delivery_views, Delivery, DeliveryView, StateInner};
use crate::table::table_get;

verus! {

/// The bytes that a recipient is sent for a line: the line with its tags
/// where it takes tags, else without them.
pub open spec fn shown(line: LineView, with_tags: bool) -> Seq<u8> {
    if with_tags {
        line.tags + line.body
    } else {
        line.body
    }
}

/// Puts a line for a client at the end of the deliveries.
pub fn deliver(out: &mut Vec<Delivery>, to: usize, with_tags: bool, line: &Line)
    requires
        line.wf(),
    ensures
        delivery_views(final(out)@) == delivery_views(old(out)@).push(
            DeliveryView { to, data: shown(line@, with_tags) },
        ),
{
    let mut data: Vec<u8> = Vec::new();
    line.render(with_tags, &mut data);
    assert(data@ =~= shown(line@, with_tags));
    out.push(Delivery { to, data });
    assert(delivery_views(out@) =~= delivery_views(old(out)@).push(
        DeliveryView { to, data: shown(line@, with_tags) },
    ));
}

/// A line without tags: the prefix, the command, the parameters, and a
/// text where there is one.
pub open spec fn plain(prefix: Seq<u8>, command: Seq<u8>, params: Seq<Seq<u8>>, text: Option<Seq<u8>>) -> LineView {
    let head = crate::reply::with_params(crate::buffer::line_head(prefix, command), params);
    LineView {
        tags: Seq::<u8>::empty(),
        body: (match text {
            Some(t) => crate::buffer::with_trailing(head, t),
            None => head,
        }) + crate::buffer::crlf(),
    }
}

/// Builds a line without tags.
pub fn plain_line(prefix: &[u8], command: &[u8], params: &Vec<Vec<u8>>, text: Option<&[u8]>) -> (line:
    Line)
    ensures
        line.wf(),
        line@ == plain(
            prefix@,
            command@,
            crate::text::views(params@),
            match text {
                Some(t) => Some(t@),
                None => None,
            },
        ),
{
    let mut msg = crate::buffer::MessageBuffer::new(prefix, command);
    let ghost head = msg.body();
    let ghost all = crate::text::views(params@);
    assert(msg.tags() =~= Seq::<u8>::empty());
    let mut i: usize = 0;
    assert(all.subrange(0, 0) =~= Seq::<Seq<u8>>::empty());
    while i < params.len()
        invariant
            i <= params@.len(),
            msg.wf(),
            msg.tags() == Seq::<u8>::empty(),
            all == crate::text::views(params@),
            msg.body() == crate::reply::with_params(head, all.subrange(0, i as int)),
        decreases params@.len() - i,
    {
        msg = msg.param(params[i].as_slice());
        proof {
            let now = all.subrange(0, i + 1);
            assert(now.drop_last() =~= all.subrange(0, i as int));
        }
        i += 1;
    }
    assert(all.subrange(0, params@.len() as int) =~= all);
    let msg = match text {
        Some(t) => msg.trailing_param(t),
        None => msg,
    };
    msg.build()
}

/// Whether the deliveries `after` are the deliveries `before` with more
/// behind them, or the same.
pub open spec fn out_extended(before: Seq<Delivery>, after: Seq<Delivery>) -> bool {
    &&& delivery_views(before).len() <= delivery_views(after).len()
    &&& forall|i: int|
        0 <= i < delivery_views(before).len() ==> #[trigger] delivery_views(after)[i]
            == delivery_views(before)[i]
}

/// The deliveries of one line to a list of recipients, in order.  Each
/// client among them is sent the line as it takes it; a recipient that is
/// no client is passed over.
pub open spec fn sent_to(clients: Map<usize, Client>, recipients: Seq<usize>, line: LineView) -> Seq<
    DeliveryView,
>
    decreases recipients.len(),
{
    if recipients.len() == 0 {
        Seq::<DeliveryView>::empty()
    } else {
        let before = sent_to(clients, recipients.drop_last(), line);
        let to = recipients.last();
        if clients.dom().contains(to) {
            before.push(
                DeliveryView { to, data: shown(line, clients[to]@.capabilities.takes_tags()) },
            )
        } else {
            before
        }
    }
}

/// The deliveries of a list of lines to one client, in order.
pub open spec fn lines_to(to: usize, with_tags: bool, lines: Seq<LineView>) -> Seq<DeliveryView> {
    Seq::new(lines.len(), |i: int| DeliveryView { to, data: shown(lines[i], with_tags) })
}

/// Whether a member is sent a line of a command on its channel: it is not
/// the one to be skipped, and it is a client that is capable of the
/// command.
pub open spec fn takes_part(
    clients: Map<usize, Client>,
    member: Member,
    command: Command,
    skip: Option<usize>,
) -> bool {
    Some(member.id) != skip && clients.dom().contains(member.id)
        && clients[member.id]@.capabilities.capable_of(command)
}

/// The members that are sent a line of a command on their channel, in the
/// order of the members.
pub open spec fn recipients(
    clients: Map<usize, Client>,
    members: Seq<Member>,
    command: Command,
    skip: Option<usize>,
) -> Seq<usize>
    decreases members.len(),
{
    if members.len() == 0 {
        Seq::<usize>::empty()
    } else {
        let before = recipients(clients, members.drop_last(), command, skip);
        if takes_part(clients, members.last(), command, skip) {
            before.push(members.last().id)
        } else {
            before
        }
    }
}

/// `seen` with the members put behind that it does not hold yet.
pub open spec fn add_unseen(seen: Seq<usize>, members: Seq<Member>) -> Seq<usize>
    decreases members.len(),
{
    if members.len() == 0 {
        seen
    } else {
        let before = add_unseen(seen, members.drop_last());
        if before.contains(members.last().id) {
            before
        } else {
            before.push(members.last().id)
        }
    }
}

/// The clients that share a channel with `from`: the members of the
/// channels that `from` is a member of, each one once, in the order in
/// which they are met.
pub open spec fn sharing(channels: Seq<EntryView>, from: usize) -> Seq<usize>
    decreases channels.len(),
{
    if channels.len() == 0 {
        Seq::<usize>::empty()
    } else {
        let before = sharing(channels.drop_last(), from);
        if is_member(channels.last().chan.members, from) {
            add_unseen(before, channels.last().chan.members)
        } else {
            before
        }
    }
}

/// Who is told of what a client did.
#[derive(Clone, Copy, Debug, PartialEq, Eq, Structural)]
pub enum Audience {
    /// Every client.
    Everyone,
    /// The clients that have asked to be told of accounts.
    AccountNotify,
    /// The clients that have asked to be told of changes of real names.
    SetName,
    /// The clients that have asked to be told of who is away.
    AwayNotify,
}

/// Whether a client belongs to an audience.
pub open spec fn in_audience(audience: Audience, c: ClientView) -> bool {
    match audience {
        Audience::Everyone => true,
        Audience::AccountNotify => c.capabilities.account_notify,
        Audience::SetName => c.capabilities.setname,
        Audience::AwayNotify => c.capabilities.away_notify,
    }
}

/// Those of `ids` that are told of what `from` did: the clients among
/// them, `from` left out, that belong to the audience.
pub open spec fn notified(
    clients: Map<usize, Client>,
    ids: Seq<usize>,
    from: usize,
    audience: Audience,
) -> Seq<usize>
    decreases ids.len(),
{
    if ids.len() == 0 {
        Seq::<usize>::empty()
    } else {
        let before = notified(clients, ids.drop_last(), from, audience);
        let id = ids.last();
        if id != from && clients.dom().contains(id) && in_audience(audience, clients[id]@) {
            before.push(id)
        } else {
            before
        }
    }
}

/// Whether no identifier stands twice in a list.
pub open spec fn distinct_ids(ids: Seq<usize>) -> bool {
    forall|i: int, j: int| 0 <= i < j < ids.len() ==> ids[i] != ids[j]
}

proof fn lemma_add_unseen(seen: Seq<usize>, members: Seq<Member>)
    requires
        distinct_ids(seen),
    ensures
        distinct_ids(add_unseen(seen, members)),
        forall|id: usize| #[trigger]
            add_unseen(seen, members).contains(id) <==> seen.contains(id) || exists|k: int|
                0 <= k < members.len() && (#[trigger] members[k]).id == id,
    decreases members.len(),
{
    let all = add_unseen(seen, members);
    if members.len() > 0 {
        let front = members.drop_last();
        let before = add_unseen(seen, front);
        lemma_add_unseen(seen, front);
        let last = members.last().id;
        assert forall|id: usize| #[trigger]
            all.contains(id) <==> seen.contains(id) || exists|k: int|
                0 <= k < members.len() && (#[trigger] members[k]).id == id by {
            if all.contains(id) {
                if before.contains(id) {
                    if !seen.contains(id) {
                        let k = choose|k: int| 0 <= k < front.len() && (#[trigger] front[k]).id == id;
                        assert(members[k].id == id);
                    }
                } else {
                    let i = choose|i: int| 0 <= i < all.len() && all[i] == id;
                    assert(id == last);
                    assert(members[members.len() - 1].id == id);
                }
            }
            if seen.contains(id) {
                assert(before.contains(id));
                let i = choose|i: int| 0 <= i < before.len() && before[i] == id;
                assert(all[i] == id);
            }
            if exists|k: int| 0 <= k < members.len() && (#[trigger] members[k]).id == id {
                let k = choose|k: int| 0 <= k < members.len() && (#[trigger] members[k]).id == id;
                if k < front.len() {
                    assert(front[k].id == id);
                    assert(before.contains(id));
                    let i = choose|i: int| 0 <= i < before.len() && before[i] == id;
                    assert(all[i] == id);
                } else {
                    if before.contains(id) {
                        let i = choose|i: int| 0 <= i < before.len() && before[i] == id;
                        assert(all[i] == id);
                    } else {
                        assert(all[all.len() - 1] == id);
                    }
                }
            }
        }
        if !before.contains(last) {
            assert forall|i: int, j: int| 0 <= i < j < all.len() implies all[i] != all[j] by {
                if j == all.len() - 1 {
                    assert(before[i] == all[i]);
                    assert(before.contains(all[i]));
                } else {
                    assert(before[i] != before[j]);
                }
            }
        }
    } else {
        assert forall|id: usize| #[trigger]
            all.contains(id) <==> seen.contains(id) || exists|k: int|
                0 <= k < members.len() && (#[trigger] members[k]).id == id by {}
    }
}

/// No client stands twice among those that share a channel with `from`,
/// however many channels they share; and a client stands among them if and
/// only if it is a member of a channel that `from` is a member of.
pub proof fn lemma_sharing(channels: Seq<EntryView>, from: usize)
    ensures
        distinct_ids(sharing(channels, from)),
        forall|id: usize| #[trigger]
            sharing(channels, from).contains(id) <==> exists|c: int|
                0 <= c < channels.len() && is_member((#[trigger] channels[c]).chan.members, from)
                    && is_member(channels[c].chan.members, id),
    decreases channels.len(),
{
    let all = sharing(channels, from);
    if channels.len() > 0 {
        let front = channels.drop_last();
        let before = sharing(front, from);
        let last = channels.last().chan.members;
        lemma_sharing(front, from);
        lemma_add_unseen(before, last);
        assert forall|id: usize| #[trigger]
            all.contains(id) <==> exists|c: int|
                0 <= c < channels.len() && is_member((#[trigger] channels[c]).chan.members, from)
                    && is_member(channels[c].chan.members, id) by {
            lemma_member_index(last, id);
            if all.contains(id) {
                if before.contains(id) {
                    let c = choose|c: int|
                        0 <= c < front.len() && is_member((#[trigger] front[c]).chan.members, from)
                            && is_member(front[c].chan.members, id);
                    assert(channels[c] == front[c]);
                } else {
                    assert(is_member(last, from));
                    assert(is_member(channels[channels.len() - 1].chan.members, id));
                }
            }
            if exists|c: int|
                0 <= c < channels.len() && is_member((#[trigger] channels[c]).chan.members, from)
                    && is_member(channels[c].chan.members, id) {
                let c = choose|c: int|
                    0 <= c < channels.len() && is_member(
                        (#[trigger] channels[c]).chan.members,
                        from,
                    ) && is_member(channels[c].chan.members, id);
                if c < front.len() {
                    assert(front[c] == channels[c]);
                    assert(before.contains(id));
                }
            }
        }
    } else {
        assert forall|id: usize| #[trigger]
            all.contains(id) <==> exists|c: int|
                0 <= c < channels.len() && is_member((#[trigger] channels[c]).chan.members, from)
                    && is_member(channels[c].chan.members, id) by {}
    }
}

proof fn lemma_notified(clients: Map<usize, Client>, ids: Seq<usize>, from: usize, audience: Audience)
    requires
        distinct_ids(ids),
    ensures
        distinct_ids(notified(clients, ids, from, audience)),
        forall|id: usize| #[trigger]
            notified(clients, ids, from, audience).contains(id) <==> ids.contains(id) && id != from
                && clients.dom().contains(id) && in_audience(audience, clients[id]@),
    decreases ids.len(),
{
    let all = notified(clients, ids, from, audience);
    if ids.len() > 0 {
        let front = ids.drop_last();
        let before = notified(clients, front, from, audience);
        assert(distinct_ids(front)) by {
            assert forall|i: int, j: int| 0 <= i < j < front.len() implies front[i] != front[j] by {
                assert(ids[i] != ids[j]);
            }
        }
        lemma_notified(clients, front, from, audience);
        let last = ids.last();
        assert forall|id: usize| #[trigger]
            all.contains(id) <==> ids.contains(id) && id != from && clients.dom().contains(id)
                && in_audience(audience, clients[id]@) by {
            if all.contains(id) {
                if before.contains(id) {
                    let k = choose|k: int| 0 <= k < front.len() && front[k] == id;
                    assert(ids[k] == id);
                } else {
                    assert(id == last);
                    assert(ids[ids.len() - 1] == id);
                }
            }
            if ids.contains(id) && id != from && clients.dom().contains(id) && in_audience(
                audience,
                clients[id]@,
            ) {
                let k = choose|k: int| 0 <= k < ids.len() && ids[k] == id;
                if k < front.len() {
                    assert(front[k] == id);
                    assert(front.contains(id));
                    assert(before.contains(id));
                    let i = choose|i: int| 0 <= i < before.len() && before[i] == id;
                    assert(all[i] == id);
                } else {
                    assert(all[all.len() - 1] == id);
                }
            }
        }
        if all.len() > before.len() {
            assert forall|i: int, j: int| 0 <= i < j < all.len() implies all[i] != all[j] by {
                if j == all.len() - 1 {
                    assert(before[i] == all[i]);
                    assert(before.contains(all[i]));
                    let k = choose|k: int| 0 <= k < front.len() && front[k] == all[i];
                    assert(ids[k] != ids[ids.len() - 1]);
                } else {
                    assert(before[i] != before[j]);
                }
            }
        }
    } else {
        assert forall|id: usize| #[trigger]
            all.contains(id) <==> ids.contains(id) && id != from && clients.dom().contains(id)
                && in_audience(audience, clients[id]@) by {}
    }
}

proof fn lemma_sent_to(clients: Map<usize, Client>, ids: Seq<usize>, line: LineView)
    requires
        distinct_ids(ids),
        forall|i: int| 0 <= i < ids.len() ==> clients.dom().contains(#[trigger] ids[i]),
    ensures
        sent_to(clients, ids, line).len() == ids.len(),
        forall|i: int|
            0 <= i < ids.len() ==> (#[trigger] sent_to(clients, ids, line)[i]).to == ids[i],
    decreases ids.len(),
{
    if ids.len() > 0 {
        let front = ids.drop_last();
        assert(distinct_ids(front)) by {
            assert forall|i: int, j: int| 0 <= i < j < front.len() implies front[i] != front[j] by {
                assert(ids[i] != ids[j]);
            }
        }
        assert forall|i: int| 0 <= i < front.len() implies clients.dom().contains(
            #[trigger] front[i],
        ) by {
            assert(front[i] == ids[i]);
        }
        lemma_sent_to(clients, front, line);
        assert(clients.dom().contains(ids[ids.len() - 1]));
    }
}

/// A line of a command that every client is capable of goes to every
/// member of a channel, where all members are clients; so it goes to one
/// client at least where the channel has a member.
pub proof fn lemma_all_told(
    clients: Map<usize, Client>,
    members: Seq<Member>,
    command: Command,
    line: LineView,
)
    requires
        forall|i: int| 0 <= i < members.len() ==> clients.dom().contains((#[trigger] members[i]).id),
        forall|caps: crate::client::Capabilities| #[trigger] caps.capable_of(command),
    ensures
        recipients(clients, members, command, None).len() == members.len(),
        forall|i: int|
            0 <= i < members.len() ==> #[trigger] recipients(clients, members, command, None)[i]
                == members[i].id,
        sent_to(clients, recipients(clients, members, command, None), line).len() == members.len(),
    decreases members.len(),
{
    if members.len() > 0 {
        let front = members.drop_last();
        assert forall|i: int| 0 <= i < front.len() implies clients.dom().contains(
            (#[trigger] front[i]).id,
        ) by {
            assert(front[i] == members[i]);
        }
        lemma_all_told(clients, front, command, line);
        let last = members.last();
        assert(clients.dom().contains(members[members.len() - 1].id));
        assert(clients[last.id]@.capabilities.capable_of(command));
        let ids = recipients(clients, members, command, None);
        assert(ids == recipients(clients, front, command, None).push(last.id));
        assert(ids.drop_last() =~= recipients(clients, front, command, None));
    }
}

/// What a client does is told to each client that shares a channel with
/// it exactly once, however many channels they share, and to no other:
/// the deliveries of a notification go to the clients that are members of
/// a channel that `from` is a member of, without `from` itself, as far as
/// they belong to the audience; and no two of them go to the same client.
pub proof fn lemma_notification_once(
    clients: Map<usize, Client>,
    channels: Seq<EntryView>,
    from: usize,
    audience: Audience,
    line: LineView,
)
    ensures
        ({
            let sent = sent_to(clients, notified(clients, sharing(channels, from), from, audience), line);
            &&& forall|i: int, j: int| 0 <= i < j < sent.len() ==> sent[i].to != sent[j].to
            &&& forall|i: int|
                0 <= i < sent.len() ==> (#[trigger] sent[i]).to != from && clients.dom().contains(
                    sent[i].to,
                ) && in_audience(audience, clients[sent[i].to]@) && exists|c: int|
                    0 <= c < channels.len() && is_member(
                        (#[trigger] channels[c]).chan.members,
                        from,
                    ) && is_member(channels[c].chan.members, sent[i].to)
            &&& forall|id: usize, c: int|
                0 <= c < channels.len() && is_member(channels[c].chan.members, from)
                    && #[trigger] is_member(channels[c].chan.members, id) && id != from
                    && clients.dom().contains(id) && in_audience(audience, clients[id]@)
                    ==> exists|i: int| 0 <= i < sent.len() && (#[trigger] sent[i]).to == id
        }),
{
    let shared = sharing(channels, from);
    let told = notified(clients, shared, from, audience);
    let sent = sent_to(clients, told, line);
    lemma_sharing(channels, from);
    lemma_notified(clients, shared, from, audience);
    assert forall|i: int| 0 <= i < told.len() implies clients.dom().contains(#[trigger] told[i]) by {
        assert(told.contains(told[i]));
    }
    lemma_sent_to(clients, told, line);
    assert forall|i: int|
        0 <= i < sent.len() implies (#[trigger] sent[i]).to != from && clients.dom().contains(
        sent[i].to,
    ) && in_audience(audience, clients[sent[i].to]@) && exists|c: int|
        0 <= c < channels.len() && is_member((#[trigger] channels[c]).chan.members, from)
            && is_member(channels[c].chan.members, sent[i].to) by {
        assert(told.contains(told[i]));
        assert(shared.contains(told[i]));
    }
    assert forall|id: usize, c: int|
        0 <= c < channels.len() && is_member(channels[c].chan.members, from)
            && #[trigger] is_member(channels[c].chan.members, id) && id != from
            && clients.dom().contains(id) && in_audience(audience, clients[id]@) implies exists|
        i: int,
    |
        0 <= i < sent.len() && (#[trigger] sent[i]).to == id by {
        assert(is_member(channels[c].chan.members, from));
        assert(shared.contains(id));
        assert(told.contains(id));
        let i = choose|i: int| 0 <= i < told.len() && told[i] == id;
        assert(sent[i].to == id);
    }
}

/// Whether a list holds an identifier.
pub fn ids_contain(ids: &Vec<usize>, id: usize) -> (r: bool)
    ensures
        r == ids@.contains(id),
{
    let mut i: usize = 0;
    while i < ids.len()
        invariant
            i <= ids@.len(),
            forall|j: int| 0 <= j < i ==> ids@[j] != id,
        decreases ids@.len() - i,
    {
        if ids[i] == id {
            return true;
        }
        i += 1;
    }
    false
}

impl<P: Provider> StateInner<P> {
    /// Sends a line to a client, if it is one.
    pub fn send(&self, out: &mut Vec<Delivery>, id: usize, line: &Line)
        requires
            line.wf(),
        ensures
            delivery_views(final(out)@) == delivery_views(old(out)@) + sent_to(
                self.clients(),
                seq![id],
                line@,
            ),
    {
        proof {
            let one = seq![id];
            assert(one.drop_last() =~= Seq::<usize>::empty());
            assert(one.last() == id);
            assert(sent_to(self.clients(), Seq::<usize>::empty(), line@)
                =~= Seq::<DeliveryView>::empty());
            assert(sent_to(self.clients(), one, line@) =~= if self.clients().dom().contains(id) {
                seq![
                    DeliveryView {
                        to: id,
                        data: shown(line@, self.clients()[id]@.capabilities.takes_tags()),
                    },
                ]
            } else {
                Seq::<DeliveryView>::empty()
            });
        }
        match table_get(&self.clients, id) {
            Some(client) => {
                let with_tags = client.capabilities.has_message_tags();
                deliver(out, id, with_tags, line);
                assert(delivery_views(out@) =~= delivery_views(old(out)@) + sent_to(
                    self.clients(),
                    seq![id],
                    line@,
                ));
            },
            None => {
                assert(delivery_views(out@) =~= delivery_views(old(out)@) + sent_to(
                    self.clients(),
                    seq![id],
                    line@,
                ));
            },
        }
    }

    /// Sends a line to each client of a list.
    pub fn send_all(&self, out: &mut Vec<Delivery>, ids: &Vec<usize>, line: &Line)
        requires
            line.wf(),
        ensures
            delivery_views(final(out)@) == delivery_views(old(out)@) + sent_to(
                self.clients(),
                ids@,
                line@,
            ),
    {
        let mut i: usize = 0;
        assert(ids@.subrange(0, 0) =~= Seq::<usize>::empty());
        assert(delivery_views(out@) =~= delivery_views(old(out)@) + sent_to(
            self.clients(),
            ids@.subrange(0, 0),
            line@,
        ));
        while i < ids.len()
            invariant
                i <= ids@.len(),
                line.wf(),
                delivery_views(out@) == delivery_views(old(out)@) + sent_to(
                    self.clients(),
                    ids@.subrange(0, i as int),
                    line@,
                ),
            decreases ids@.len() - i,
        {
            let ghost before = delivery_views(out@);
            let ghost front = ids@.subrange(0, i as int);
            let ghost now = ids@.subrange(0, i + 1);
            assert(now.drop_last() =~= front);
            match table_get(&self.clients, ids[i]) {
                Some(client) => {
                    let with_tags = client.capabilities.has_message_tags();
                    deliver(out, ids[i], with_tags, line);
                },
                None => {},
            }
            assert(delivery_views(out@) =~= delivery_views(old(out)@) + sent_to(
                self.clients(),
                now,
                line@,
            ));
            i += 1;
        }
        assert(ids@.subrange(0, ids@.len() as int) =~= ids@);
    }

    /// Sends each line of a list to one client, as a client with these
    /// capabilities takes them.
    pub fn send_lines(out: &mut Vec<Delivery>, id: usize, with_tags: bool, lines: &Vec<Line>)
        requires
            crate::buffer::lines_wf(lines@),
        ensures
            delivery_views(final(out)@) == delivery_views(old(out)@) + lines_to(
                id,
                with_tags,
                crate::buffer::line_views(lines@),
            ),
    {
        let ghost all = lines_to(id, with_tags, crate::buffer::line_views(lines@));
        let mut i: usize = 0;
        assert(delivery_views(out@) =~= delivery_views(old(out)@) + all.subrange(0, 0));
        while i < lines.len()
            invariant
                i <= lines@.len(),
                crate::buffer::lines_wf(lines@),
                all == lines_to(id, with_tags, crate::buffer::line_views(lines@)),
                delivery_views(out@) == delivery_views(old(out)@) + all.subrange(0, i as int),
            decreases lines@.len() - i,
        {
            deliver(out, id, with_tags, &lines[i]);
            assert(delivery_views(out@) =~= delivery_views(old(out)@) + all.subrange(0, i + 1));
            i += 1;
        }
        assert(all.subrange(0, lines@.len() as int) =~= all);
    }

    /// The members of the channel at `at` that are sent a line of a
    /// command.
    pub fn channel_recipients(&self, at: usize, command: Command, skip: Option<usize>) -> (ids: Vec<
        usize,
    >)
        requires
            at < self.channels@.len(),
        ensures
            ids@ == recipients(self.clients(), self.channels@[at as int].chan@.members, command, skip),
    {
        let members = &self.channels[at].chan.members;
        let mut ids: Vec<usize> = Vec::new();
        let mut i: usize = 0;
        assert(members@.subrange(0, 0) =~= Seq::<Member>::empty());
        while i < members.len()
            invariant
                i <= members@.len(),
                ids@ == recipients(self.clients(), members@.subrange(0, i as int), command, skip),
            decreases members@.len() - i,
        {
            let ghost now = members@.subrange(0, i + 1);
            assert(now.drop_last() =~= members@.subrange(0, i as int));
            let id = members[i].id;
            let skipped = match skip {
                Some(s) => s == id,
                None => false,
            };
            if !skipped {
                match table_get(&self.clients, id) {
                    Some(client) => {
                        if client.capabilities.is_capable_of(command) {
                            ids.push(id);
                        }
                    },
                    None => {},
                }
            }
            i += 1;
        }
        assert(members@.subrange(0, members@.len() as int) =~= members@);
        ids
    }

    /// Sends a line of a command to the members of the channel at `at`:
    /// to each member that is capable of the command, but for the one to
    /// be skipped.
    pub fn broadcast(
        &self,
        out: &mut Vec<Delivery>,
        at: usize,
        line: &Line,
        command: Command,
        skip: Option<usize>,
    )
        requires
            line.wf(),
            at < self.channels@.len(),
        ensures
            delivery_views(final(out)@) == delivery_views(old(out)@) + sent_to(
                self.clients(),
                recipients(self.clients(), self.channels@[at as int].chan@.members, command, skip),
                line@,
            ),
    {
        let ids = self.channel_recipients(at, command, skip);
        self.send_all(out, &ids, line);
    }

    /// The clients that share a channel with `from`, each one once.
    pub fn sharing_ids(&self, from: usize) -> (ids: Vec<usize>)
        ensures
            ids@ == sharing(entry_views(self.channels@), from),
    {
        let ghost all = entry_views(self.channels@);
        let mut ids: Vec<usize> = Vec::new();
        let mut c: usize = 0;
        assert(all.subrange(0, 0) =~= Seq::<EntryView>::empty());
        while c < self.channels.len()
            invariant
                c <= self.channels@.len(),
                all == entry_views(self.channels@),
                ids@ == sharing(all.subrange(0, c as int), from),
            decreases self.channels@.len() - c,
        {
            let ghost front = all.subrange(0, c as int);
            let ghost now = all.subrange(0, c + 1);
            assert(now.drop_last() =~= front);
            assert(now.last() == self.channels@[c as int]@);
            let chan = &self.channels[c].chan;
            if chan.has_member(from) {
                let ghost seen = ids@;
                let members = &chan.members;
                let mut i: usize = 0;
                assert(members@.subrange(0, 0) =~= Seq::<Member>::empty());
                while i < members.len()
                    invariant
                        i <= members@.len(),
                        ids@ == add_unseen(seen, members@.subrange(0, i as int)),
                    decreases members@.len() - i,
                {
                    let ghost part = members@.subrange(0, i + 1);
                    assert(part.drop_last() =~= members@.subrange(0, i as int));
                    if !ids_contain(&ids, members[i].id) {
                        ids.push(members[i].id);
                    }
                    i += 1;
                }
                assert(members@.subrange(0, members@.len() as int) =~= members@);
            }
            c += 1;
        }
        assert(all.subrange(0, self.channels@.len() as int) =~= all);
        ids
    }

    /// Those among `ids` that are told of what `from` did.
    pub fn audience_of(&self, ids: &Vec<usize>, from: usize, audience: Audience) -> (told: Vec<usize>)
        ensures
            told@ == notified(self.clients(), ids@, from, audience),
    {
        let mut told: Vec<usize> = Vec::new();
        let mut i: usize = 0;
        assert(ids@.subrange(0, 0) =~= Seq::<usize>::empty());
        while i < ids.len()
            invariant
                i <= ids@.len(),
                told@ == notified(self.clients(), ids@.subrange(0, i as int), from, audience),
            decreases ids@.len() - i,
        {
            let ghost now = ids@.subrange(0, i + 1);
            assert(now.drop_last() =~= ids@.subrange(0, i as int));
            let id = ids[i];
            if id != from {
                match table_get(&self.clients, id) {
                    Some(client) => {
                        let takes = match audience {
                            Audience::Everyone => true,
                            Audience::AccountNotify => client.capabilities.account_notify,
                            Audience::SetName => client.capabilities.setname,
                            Audience::AwayNotify => client.capabilities.away_notify,
                        };
                        if takes {
                            told.push(id);
                        }
                    },
                    None => {},
                }
            }
            i += 1;
        }
        assert(ids@.subrange(0, ids@.len() as int) =~= ids@);
        told
    }

    /// Tells what `from` did to every client that shares a channel with
    /// it and belongs to the audience, each one once; `from` itself is
    /// not told.
    pub fn send_notification(
        &self,
        out: &mut Vec<Delivery>,
        from: usize,
        line: &Line,
        audience: Audience,
    )
        requires
            line.wf(),
        ensures
            delivery_views(final(out)@) == delivery_views(old(out)@) + sent_to(
                self.clients(),
                notified(
                    self.clients(),
                    sharing(entry_views(self.channels@), from),
                    from,
                    audience,
                ),
                line@,
            ),
    {
        let shared = self.sharing_ids(from);
        let told = self.audience_of(&shared, from, audience);
        self.send_all(out, &told, line);
    }
}

} // verus!
