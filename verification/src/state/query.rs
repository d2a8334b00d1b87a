//! The commands that only ask: their replies, and the replies that greet
//! a client that has registered.

use vstd::prelude::*;
use vstd::string::StringSliceAdditionalSpecFns;
use crate::auth::Provider;

use crate::client::{full_name, Client};
use crate::lines;
use crate::reply::{numeric_bare_of, numeric_of, ReplyBuffer, ReplyHead};
use crate::rpl;
use crate::state::StateInner;
use crate::table::{table_get, table_keys, table_len};
use crate::text::{append, append_decimal, append_str, find, from_str, slice, to_vec, COMMA, CR, EQUALS, LF, SPACE, STAR};

verus! {

/// A word of the form `NAME=number`.
fn token(name: &str, n: usize) -> (r: Vec<u8>)
    ensures
        r@ == token_of(name.spec_bytes(), n as nat),
{
    let mut r = from_str(name);
    r.push(EQUALS);
    append_decimal(&mut r, n);
    assert(r@ =~= token_of(name.spec_bytes(), n as nat));
    r
}

/// The sign of a channel in a list of names.
pub open spec fn channel_symbol(ch: crate::channel::ChannelView) -> u8 {
    if ch.secret {
        crate::channel::SYMBOL_SECRET
    } else {
        crate::channel::SYMBOL_PUBLIC
    }
}

/// How a member is shown in a list of names: its signs (all of them for a
/// client that has asked for them, else the highest), and its nickname or,
/// for a client that has asked for it, its full name.
pub open spec fn shown_name(
    c: crate::client::ClientView,
    modes: crate::channel::MemberModes,
    multi_prefix: bool,
    userhost: bool,
) -> Seq<u8> {
    (if multi_prefix {
        modes.symbols()
    } else if modes.operator {
        seq![crate::channel::SYMBOL_OPERATOR]
    } else if modes.voice {
        seq![crate::channel::SYMBOL_VOICE]
    } else {
        Seq::<u8>::empty()
    }) + (if userhost {
        full_name(c)
    } else {
        c.nick
    })
}

/// A list of names with a space behind it, where it is not empty.
pub open spec fn separated(names: Seq<u8>) -> Seq<u8> {
    if names.len() > 0 {
        names + seq![SPACE]
    } else {
        names
    }
}

/// The names of the members of a channel, parted by spaces, in the order
/// of the members.
pub open spec fn names_text(
    clients: Map<usize, Client>,
    members: Seq<crate::channel::Member>,
    multi_prefix: bool,
    userhost: bool,
) -> Seq<u8>
    decreases members.len(),
{
    if members.len() == 0 {
        Seq::<u8>::empty()
    } else {
        let before = names_text(clients, members.drop_last(), multi_prefix, userhost);
        let member = members.last();
        if clients.dom().contains(member.id) {
            separated(before) + shown_name(
                clients[member.id]@,
                member.modes,
                multi_prefix,
                userhost,
            )
        } else {
            before
        }
    }
}

/// A word of the form `NAME=number`.
pub open spec fn token_of(name: Seq<u8>, n: nat) -> Seq<u8> {
    name + seq![EQUALS] + crate::text::decimal(n)
}

/// What the server supports whatever its configuration.
pub open spec fn support_tokens() -> Seq<Seq<u8>> {
    seq![
        "CASEMAPPING=ascii".spec_bytes(),
        "CHANLIMIT=#:,&:".spec_bytes(),
        "CHANTYPES=#&".spec_bytes(),
        lines::CHANMODES.spec_bytes(),
        "EXCEPTS".spec_bytes(),
        "HOSTLEN=39".spec_bytes(),
        "INVEX".spec_bytes(),
        "MODES".spec_bytes(),
        "PREFIX=(qaohv)~&@%+".spec_bytes(),
        "SAFELIST".spec_bytes(),
        "TARGMAX=JOIN:,KICK:1,LIST:,NAMES:,NOTICE:1,PART:,PRIVMSG:1,WHOIS:1".spec_bytes(),
    ]
}

/// Whether a list of identifiers rises.
pub open spec fn rising(ids: Seq<usize>) -> bool {
    forall|i: int, j: int| 0 <= i < j < ids.len() ==> ids[i] < ids[j]
}

/// Whether a list holds the members of a set, each once, in rising order.
pub open spec fn lists(ids: Seq<usize>, set: Set<usize>) -> bool {
    rising(ids) && forall|id: usize| ids.contains(id) <==> set.contains(id)
}

/// Only one list holds the members of a set in rising order.
pub proof fn lemma_one_listing(a: Seq<usize>, b: Seq<usize>, set: Set<usize>)
    requires
        lists(a, set),
        lists(b, set),
    ensures
        a == b,
    decreases a.len(),
{
    if a.len() == 0 {
        if b.len() > 0 {
            assert(b.contains(b[0]));
            assert(a.contains(b[0]));
        }
        assert(a =~= b);
    } else {
        let m = a.last();
        assert(a.contains(a[a.len() - 1]));
        assert(b.contains(m));
        let k = choose|k: int| 0 <= k < b.len() && b[k] == m;
        if k < b.len() - 1 {
            let top = b[b.len() - 1];
            assert(b.contains(top));
            assert(a.contains(top));
            let j = choose|j: int| 0 <= j < a.len() && a[j] == top;
            if j < a.len() - 1 {
                assert(a[j] < a[a.len() - 1]);
            }
        }
        assert(b.last() == m);
        let rest = set.remove(m);
        let a1 = a.drop_last();
        let b1 = b.drop_last();
        assert(lists(a1, rest)) by {
            assert forall|id: usize| a1.contains(id) <==> rest.contains(id) by {
                if a1.contains(id) {
                    let i = choose|i: int| 0 <= i < a1.len() && a1[i] == id;
                    assert(a[i] == id);
                    assert(a.contains(id));
                    assert(a[i] < a[a.len() - 1]);
                }
                if rest.contains(id) {
                    assert(a.contains(id));
                    let i = choose|i: int| 0 <= i < a.len() && a[i] == id;
                    assert(a1[i] == id);
                }
            }
            assert forall|i: int, j: int| 0 <= i < j < a1.len() implies a1[i] < a1[j] by {
                assert(a[i] < a[j]);
            }
        }
        assert(lists(b1, rest)) by {
            assert forall|id: usize| b1.contains(id) <==> rest.contains(id) by {
                if b1.contains(id) {
                    let i = choose|i: int| 0 <= i < b1.len() && b1[i] == id;
                    assert(b[i] == id);
                    assert(b.contains(id));
                    assert(b[i] < b[b.len() - 1]);
                }
                if rest.contains(id) {
                    assert(b.contains(id));
                    let i = choose|i: int| 0 <= i < b.len() && b[i] == id;
                    assert(b1[i] == id);
                }
            }
            assert forall|i: int, j: int| 0 <= i < j < b1.len() implies b1[i] < b1[j] by {
                assert(b[i] < b[j]);
            }
        }
        lemma_one_listing(a1, b1, rest);
        assert(a =~= a1.push(m));
        assert(b =~= b1.push(m));
    }
}

/// The identifiers of the clients in rising order.
pub open spec fn listing(clients: Map<usize, Client>) -> Seq<usize> {
    choose|ids: Seq<usize>| lists(ids, clients.dom())
}

/// The number of clients among `ids` that have not registered.
pub open spec fn count_unknown(clients: Map<usize, Client>, ids: Seq<usize>) -> nat
    decreases ids.len(),
{
    if ids.len() == 0 {
        0
    } else {
        let before = count_unknown(clients, ids.drop_last());
        if clients.dom().contains(ids.last()) && !clients[ids.last()]@.state.registered {
            before + 1
        } else {
            before
        }
    }
}

/// The number of registered clients among `ids` that are operators.
pub open spec fn count_operators(clients: Map<usize, Client>, ids: Seq<usize>) -> nat
    decreases ids.len(),
{
    if ids.len() == 0 {
        0
    } else {
        let before = count_operators(clients, ids.drop_last());
        if clients.dom().contains(ids.last()) && clients[ids.last()]@.state.registered
            && clients[ids.last()]@.operator {
            before + 1
        } else {
            before
        }
    }
}

/// The number of channels of a list that are not secret.
pub open spec fn count_visible(channels: Seq<crate::state::ChannelEntry>) -> nat
    decreases channels.len(),
{
    if channels.len() == 0 {
        0
    } else {
        count_visible(channels.drop_last()) + (if channels.last().chan@.secret {
            0nat
        } else {
            1nat
        })
    }
}

/// The text that greets a client.
pub open spec fn welcome_text(c: crate::client::ClientView) -> Seq<u8> {
    lines::WELCOME.spec_bytes() + full_name(c)
}

impl<P: Provider> StateInner<P> {
    /// What the server supports by its configuration: the lengths that it
    /// allows.
    pub open spec fn limit_tokens(&self) -> Seq<Seq<u8>> {
        seq![
            token_of("AWAYLEN".spec_bytes(), self.awaylen as nat),
            token_of("CHANNELLEN".spec_bytes(), self.channellen as nat),
            token_of("KICKLEN".spec_bytes(), self.kicklen as nat),
            token_of("NAMELEN".spec_bytes(), self.namelen as nat),
            token_of("NICKLEN".spec_bytes(), self.nicklen as nat),
            token_of("TOPICLEN".spec_bytes(), self.topiclen as nat),
        ]
    }

    /// The two replies that tell what the server supports.
    pub open spec fn i_support_replies(&self, head: ReplyHead) -> Seq<crate::buffer::LineView> {
        seq![
            numeric_of(head, rpl::ISUPPORT, support_tokens(), lines::I_SUPPORT.spec_bytes()),
            numeric_of(head, rpl::ISUPPORT, self.limit_tokens(), lines::I_SUPPORT.spec_bytes()),
        ]
    }

    /// Stages the note of what the server supports.
    pub fn send_i_support(&self, rb: &mut ReplyBuffer)
        requires
            old(rb).wf(),
        ensures
            final(rb).wf(),
            old(rb).extended_by(final(rb)),
            final(rb).staged() == old(rb).staged() + self.i_support_replies(old(rb).head()),
    {
        let mut params: Vec<Vec<u8>> = Vec::new();
        params.push(from_str("CASEMAPPING=ascii"));
        params.push(from_str("CHANLIMIT=#:,&:"));
        params.push(from_str("CHANTYPES=#&"));
        params.push(from_str(lines::CHANMODES));
        params.push(from_str("EXCEPTS"));
        params.push(from_str("HOSTLEN=39"));
        params.push(from_str("INVEX"));
        params.push(from_str("MODES"));
        params.push(from_str("PREFIX=(qaohv)~&@%+"));
        params.push(from_str("SAFELIST"));
        params.push(from_str("TARGMAX=JOIN:,KICK:1,LIST:,NAMES:,NOTICE:1,PART:,PRIVMSG:1,WHOIS:1"));
        assert(crate::text::views(params@) =~= support_tokens());
        rb.reply_all(rpl::ISUPPORT, &params, Some(lines::I_SUPPORT.as_bytes()));
        let mut limits: Vec<Vec<u8>> = Vec::new();
        limits.push(token("AWAYLEN", self.awaylen));
        limits.push(token("CHANNELLEN", self.channellen));
        limits.push(token("KICKLEN", self.kicklen));
        limits.push(token("NAMELEN", self.namelen));
        limits.push(token("NICKLEN", self.nicklen));
        limits.push(token("TOPICLEN", self.topiclen));
        assert(crate::text::views(limits@) =~= self.limit_tokens());
        rb.reply_all(rpl::ISUPPORT, &limits, Some(lines::I_SUPPORT.as_bytes()));
        assert(rb.staged() =~= old(rb).staged() + self.i_support_replies(old(rb).head()));
    }

    /// Counts the operators among the registered clients, and the clients
    /// that have not registered.
    fn count_clients(&self) -> (r: (usize, usize))
        ensures
            r.0 == count_operators(self.clients(), listing(self.clients())),
            r.1 == count_unknown(self.clients(), listing(self.clients())),
    {
        let keys = table_keys(&self.clients);
        proof {
            assert(lists(keys@, self.clients().dom()));
            lemma_one_listing(keys@, listing(self.clients()), self.clients().dom());
        }
        let mut operators: usize = 0;
        let mut unknown: usize = 0;
        let mut i: usize = 0;
        assert(keys@.subrange(0, 0) =~= Seq::<usize>::empty());
        while i < keys.len()
            invariant
                i <= keys@.len(),
                operators <= i,
                unknown <= i,
                operators == count_operators(self.clients(), keys@.subrange(0, i as int)),
                unknown == count_unknown(self.clients(), keys@.subrange(0, i as int)),
            decreases keys@.len() - i,
        {
            let ghost now = keys@.subrange(0, i + 1);
            assert(now.drop_last() =~= keys@.subrange(0, i as int));
            assert(now.last() == keys@[i as int]);
            match table_get(&self.clients, keys[i]) {
                Some(client) => {
                    if !client.is_registered() {
                        unknown += 1;
                    } else if client.operator {
                        operators += 1;
                    }
                },
                None => {},
            }
            i += 1;
        }
        assert(keys@.subrange(0, keys@.len() as int) =~= keys@);
        (operators, unknown)
    }

    /// Counts the channels that are not secret.
    fn count_channels(&self) -> (n: usize)
        ensures
            n == count_visible(self.channels@),
    {
        let mut n: usize = 0;
        let mut i: usize = 0;
        assert(self.channels@.subrange(0, 0) =~= Seq::<crate::state::ChannelEntry>::empty());
        while i < self.channels.len()
            invariant
                i <= self.channels@.len(),
                n <= i,
                n == count_visible(self.channels@.subrange(0, i as int)),
            decreases self.channels@.len() - i,
        {
            let ghost now = self.channels@.subrange(0, i + 1);
            assert(now.drop_last() =~= self.channels@.subrange(0, i as int));
            assert(now.last() == self.channels@[i as int]);
            if !self.channels[i].chan.secret {
                n += 1;
            }
            i += 1;
        }
        assert(self.channels@.subrange(0, self.channels@.len() as int) =~= self.channels@);
        n
    }

    /// The replies that tell how many clients, operators, unregistered
    /// connections and channels there are.  The numbers of operators, of
    /// unregistered connections and of channels are told where they are
    /// not zero; of the channels, those that are not secret are counted.
    pub open spec fn lusers_replies(&self, head: ReplyHead) -> Seq<crate::buffer::LineView> {
        let n = self.clients().dom().len();
        let ids = listing(self.clients());
        let operators = count_operators(self.clients(), ids);
        let unknown = count_unknown(self.clients(), ids);
        seq![
            numeric_of(
                head,
                rpl::LUSERCLIENT,
                seq![],
                lines::LUSER_CLIENT_START.spec_bytes() + crate::text::decimal(n)
                    + lines::LUSER_CLIENT_END.spec_bytes(),
            ),
        ] + (if operators > 0 {
            seq![
                numeric_of(
                    head,
                    rpl::LUSEROP,
                    seq![crate::text::decimal(operators)],
                    lines::LUSER_OP.spec_bytes(),
                ),
            ]
        } else {
            Seq::<crate::buffer::LineView>::empty()
        }) + (if unknown > 0 {
            seq![
                numeric_of(
                    head,
                    rpl::LUSERUNKNOWN,
                    seq![crate::text::decimal(unknown)],
                    lines::LUSER_UNKNOWN.spec_bytes(),
                ),
            ]
        } else {
            Seq::<crate::buffer::LineView>::empty()
        }) + (if self.channels@.len() > 0 {
            seq![
                numeric_of(
                    head,
                    rpl::LUSERCHANNELS,
                    seq![crate::text::decimal(count_visible(self.channels@))],
                    lines::LUSER_CHANNELS.spec_bytes(),
                ),
            ]
        } else {
            Seq::<crate::buffer::LineView>::empty()
        }) + seq![
            numeric_of(
                head,
                rpl::LUSERME,
                seq![],
                lines::LUSER_ME_START.spec_bytes() + crate::text::decimal(n)
                    + lines::LUSER_ME_END.spec_bytes(),
            ),
        ]
    }

    fn reply_count(rb: &mut ReplyBuffer, code: u16, n: usize, text: &str)
        requires
            old(rb).wf(),
        ensures
            final(rb).wf(),
            old(rb).extended_by(final(rb)),
            final(rb).staged() == old(rb).staged().push(
                numeric_of(
                    old(rb).head(),
                    code,
                    seq![crate::text::decimal(n as nat)],
                    text.spec_bytes(),
                ),
            ),
    {
        let mut digits: Vec<u8> = Vec::new();
        append_decimal(&mut digits, n);
        assert(digits@ =~= crate::text::decimal(n as nat));
        rb.reply1(code, digits.as_slice(), text.as_bytes());
    }

    /// Stages the numbers of clients, operators and channels.
    pub fn send_lusers(&self, rb: &mut ReplyBuffer)
        requires
            old(rb).wf(),
        ensures
            final(rb).wf(),
            old(rb).extended_by(final(rb)),
            final(rb).staged() == old(rb).staged() + self.lusers_replies(old(rb).head()),
    {
        let n = table_len(&self.clients);
        let mut text = from_str(lines::LUSER_CLIENT_START);
        append_decimal(&mut text, n);
        append_str(&mut text, lines::LUSER_CLIENT_END);
        rb.reply0(rpl::LUSERCLIENT, text.as_slice());
        let (operators, unknown) = self.count_clients();
        if 0 < operators {
            Self::reply_count(rb, rpl::LUSEROP, operators, lines::LUSER_OP);
        }
        if 0 < unknown {
            Self::reply_count(rb, rpl::LUSERUNKNOWN, unknown, lines::LUSER_UNKNOWN);
        }
        if self.channels.len() > 0 {
            let visible = self.count_channels();
            Self::reply_count(rb, rpl::LUSERCHANNELS, visible, lines::LUSER_CHANNELS);
        }
        let mut text = from_str(lines::LUSER_ME_START);
        append_decimal(&mut text, n);
        append_str(&mut text, lines::LUSER_ME_END);
        rb.reply0(rpl::LUSERME, text.as_slice());
        assert(rb.staged() =~= old(rb).staged() + self.lusers_replies(old(rb).head()));
    }

    /// The replies that show the lines of a text from `i` on.  The lines
    /// are parted by LF; a CR before the LF is no part of the line.
    pub open spec fn motd_lines(head: ReplyHead, text: Seq<u8>, i: int) -> Seq<
        crate::buffer::LineView,
    >
        decreases text.len() - i,
    {
        if i < 0 || i >= text.len() {
            Seq::<crate::buffer::LineView>::empty()
        } else {
            let end = crate::text::position(text, i, LF);
            let stop = if end > i && text[end - 1] == CR {
                end - 1
            } else {
                end
            };
            let line = numeric_of(
                head,
                rpl::MOTD,
                seq![],
                lines::MOTD_LINE.spec_bytes() + text.subrange(i, stop),
            );
            if i <= end < text.len() {
                seq![line] + Self::motd_lines(head, text, end + 1)
            } else {
                seq![line]
            }
        }
    }

    /// The replies that show the message of the day: its start, its lines
    /// and its end; or the note that there is none.
    pub open spec fn motd_replies(&self, head: ReplyHead) -> Seq<crate::buffer::LineView> {
        match self.motd {
            Some(text) => seq![
                numeric_of(
                    head,
                    rpl::MOTDSTART,
                    seq![],
                    lines::MOTD_START.spec_bytes() + self.domain@,
                ),
            ] + Self::motd_lines(head, text@, 0) + seq![
                numeric_of(head, rpl::ENDOFMOTD, seq![], lines::END_OF_MOTD.spec_bytes()),
            ],
            None => seq![numeric_of(head, rpl::ERR_NOMOTD, seq![], lines::NO_MOTD.spec_bytes())],
        }
    }

    /// Stages the message of the day, line by line, or the note that there
    /// is none.
    pub fn send_motd(&self, rb: &mut ReplyBuffer)
        requires
            old(rb).wf(),
        ensures
            final(rb).wf(),
            old(rb).extended_by(final(rb)),
            final(rb).staged() == old(rb).staged() + self.motd_replies(old(rb).head()),
    {
        match &self.motd {
            Some(motd) => {
                let mut text = from_str(lines::MOTD_START);
                append(&mut text, self.domain.as_slice());
                rb.reply0(rpl::MOTDSTART, text.as_slice());
                let motd = motd.as_slice();
                let ghost first = rb.staged();
                let ghost all = Self::motd_lines(old(rb).head(), motd@, 0);
                let ghost mut done: Seq<crate::buffer::LineView> = Seq::empty();
                let mut i: usize = 0;
                assert(done + Self::motd_lines(old(rb).head(), motd@, 0) =~= all);
                assert(rb.staged() =~= first + done);
                while i < motd.len()
                    invariant_except_break
                        done + Self::motd_lines(old(rb).head(), motd@, i as int) == all,
                    invariant
                        i <= motd.len(),
                        rb.wf(),
                        old(rb).extended_by(rb),
                        all == Self::motd_lines(old(rb).head(), motd@, 0),
                        rb.staged() == first + done,
                    ensures
                        done == all,
                    decreases motd.len() - i,
                {
                    let end = find(motd, i, LF);
                    let stop = if end > i && motd[end - 1] == CR {
                        end - 1
                    } else {
                        end
                    };
                    let mut line = from_str(lines::MOTD_LINE);
                    append(&mut line, slice(motd, i, stop).as_slice());
                    let ghost shown = numeric_of(
                        old(rb).head(),
                        rpl::MOTD,
                        seq![],
                        lines::MOTD_LINE.spec_bytes() + motd@.subrange(i as int, stop as int),
                    );
                    rb.reply0(rpl::MOTD, line.as_slice());
                    proof {
                        assert(rb.staged() =~= first + done.push(shown));
                        if end < motd.len() {
                            assert(done.push(shown) + Self::motd_lines(old(rb).head(), motd@, end + 1)
                                =~= done + Self::motd_lines(old(rb).head(), motd@, i as int));
                        } else {
                            assert(done.push(shown) =~= done + Self::motd_lines(
                                old(rb).head(),
                                motd@,
                                i as int,
                            ));
                        }
                        done = done.push(shown);
                    }
                    if end >= motd.len() {
                        break ;
                    }
                    i = end + 1;
                }
                proof {
                    if i >= motd.len() {
                        assert(done + Self::motd_lines(old(rb).head(), motd@, i as int) =~= done);
                    }
                }
                rb.reply0(rpl::ENDOFMOTD, lines::END_OF_MOTD.as_bytes());
                assert(rb.staged() =~= old(rb).staged() + self.motd_replies(old(rb).head()));
            },
            None => {
                rb.reply0(rpl::ERR_NOMOTD, lines::NO_MOTD.as_bytes());
                assert(rb.staged() =~= old(rb).staged() + self.motd_replies(old(rb).head()));
            },
        }
    }

    /// The replies that list the members of a channel: their names in one
    /// line, and the end of the list.  There are none for a channel that
    /// does not exist, nor for a secret one that the client is no member
    /// of.
    pub open spec fn names_replies(&self, head: ReplyHead, id: usize, name: Seq<u8>) -> Seq<
        crate::buffer::LineView,
    > {
        let at = crate::state::base::channel_index(self.channels@, crate::text::fold(name));
        if !(0 <= at < self.channels@.len()) {
            Seq::<crate::buffer::LineView>::empty()
        } else {
            let ch = self.channels@[at].chan@;
            if ch.secret && !crate::channel::is_member(ch.members, id) {
                Seq::<crate::buffer::LineView>::empty()
            } else {
                let caps = if self.has_client(id) {
                    self.client(id).capabilities
                } else {
                    crate::client::Capabilities::none()
                };
                let list = if ch.members.len() > 0 {
                    seq![
                        numeric_of(
                            head,
                            rpl::NAMREPLY,
                            seq![seq![channel_symbol(ch)], name],
                            names_text(
                                self.clients(),
                                ch.members,
                                caps.multi_prefix,
                                caps.userhost_in_names,
                            ),
                        ),
                    ]
                } else {
                    Seq::<crate::buffer::LineView>::empty()
                };
                list + seq![
                    numeric_of(
                        head,
                        rpl::ENDOFNAMES,
                        seq![name],
                        lines::END_OF_NAMES.spec_bytes(),
                    ),
                ]
            }
        }
    }

    /// Stages the names of the members of a channel, and the end of the
    /// list.  Nothing is staged for a channel that does not exist, nor for
    /// a secret one that the client is no member of.
    pub fn send_names(&self, id: usize, rb: &mut ReplyBuffer, channel_name: &[u8])
        requires
            old(rb).wf(),
        ensures
            final(rb).wf(),
            old(rb).extended_by(final(rb)),
            final(rb).staged() == old(rb).staged() + self.names_replies(old(rb).head(), id, channel_name@),
    {
        let at = self.channel_position(channel_name);
        if at >= self.channels.len() {
            assert(rb.staged() =~= old(rb).staged() + self.names_replies(
                old(rb).head(),
                id,
                channel_name@,
            ));
            return ;
        }
        let channel = &self.channels[at].chan;
        if channel.secret && !channel.has_member(id) {
            assert(rb.staged() =~= old(rb).staged() + self.names_replies(
                old(rb).head(),
                id,
                channel_name@,
            ));
            return ;
        }
        let (multi_prefix, userhost) = match table_get(&self.clients, id) {
            Some(client) => (
                client.capabilities.multi_prefix,
                client.capabilities.userhost_in_names,
            ),
            None => (false, false),
        };
        if channel.members.len() > 0 {
            let mut names: Vec<u8> = Vec::new();
            let mut i: usize = 0;
            let ghost members = channel.members@;
            assert(members.subrange(0, 0) =~= Seq::<crate::channel::Member>::empty());
            while i < channel.members.len()
                invariant
                    i <= channel.members@.len(),
                    members == channel.members@,
                    names@ == names_text(
                        self.clients(),
                        members.subrange(0, i as int),
                        multi_prefix,
                        userhost,
                    ),
                decreases channel.members@.len() - i,
            {
                let ghost before = names@;
                let ghost now = members.subrange(0, i + 1);
                assert(now.drop_last() =~= members.subrange(0, i as int));
                assert(now.last() == members[i as int]);
                let member = channel.members[i];
                match table_get(&self.clients, member.id) {
                    Some(client) => {
                        if names.len() > 0 {
                            names.push(SPACE);
                        }
                        if multi_prefix {
                            member.modes.all_symbols(&mut names);
                        } else {
                            match member.modes.symbol() {
                                Some(s) => names.push(s),
                                None => {},
                            }
                        }
                        if userhost {
                            append(&mut names, client.full_name().as_slice());
                        } else {
                            append(&mut names, client.nick.as_slice());
                        }
                        assert(names@ =~= separated(before) + shown_name(
                            client@,
                            member.modes,
                            multi_prefix,
                            userhost,
                        ));
                    },
                    None => {},
                }
                i += 1;
            }
            assert(members.subrange(0, members.len() as int) =~= members);
            let mut symbol: Vec<u8> = Vec::new();
            symbol.push(channel.symbol());
            assert(symbol@ =~= seq![channel_symbol(channel@)]);
            rb.reply2(rpl::NAMREPLY, symbol.as_slice(), channel_name, names.as_slice());
        }
        rb.reply1(rpl::ENDOFNAMES, channel_name, lines::END_OF_NAMES.as_bytes());
        assert(rb.staged() =~= old(rb).staged() + self.names_replies(old(rb).head(), id, channel_name@));
    }

    /// The replies that show the topic of a channel: the topic, and who set
    /// it and when; or, where it has none, the note of that if `send_error`
    /// asks for it.
    pub open spec fn topic_replies(
        head: ReplyHead,
        ch: crate::channel::ChannelView,
        name: Seq<u8>,
        send_error: bool,
    ) -> Seq<crate::buffer::LineView> {
        match ch.topic {
            Some(t) => seq![
                numeric_of(head, rpl::TOPIC, seq![name], t.content),
                numeric_bare_of(
                    head,
                    rpl::TOPICWHOTIME,
                    seq![name, t.who, crate::text::decimal(t.time as nat)],
                ),
            ],
            None => if send_error {
                seq![numeric_of(head, rpl::NOTOPIC, seq![name], lines::NO_TOPIC.spec_bytes())]
            } else {
                Seq::<crate::buffer::LineView>::empty()
            },
        }
    }

    /// Stages the topic of the channel at `at`; where it has none, the
    /// note of that, if `send_error` asks for it.
    pub fn send_topic(&self, rb: &mut ReplyBuffer, at: usize, channel_name: &[u8], send_error: bool)
        requires
            old(rb).wf(),
            at < self.channels@.len(),
        ensures
            final(rb).wf(),
            old(rb).extended_by(final(rb)),
            final(rb).staged() == old(rb).staged() + Self::topic_replies(
                old(rb).head(),
                self.channels@[at as int].chan@,
                channel_name@,
                send_error,
            ),
    {
        let channel = &self.channels[at].chan;
        match &channel.topic {
            Some(topic) => {
                rb.reply1(rpl::TOPIC, channel_name, topic.content.as_slice());
                let mut time: Vec<u8> = Vec::new();
                crate::text::append_decimal64(&mut time, topic.time);
                assert(time@ =~= crate::text::decimal(topic.time as nat));
                let ghost head = rb.reply_head(rpl::TOPICWHOTIME);
                let msg = rb.reply(rpl::TOPICWHOTIME).param(channel_name).param(
                    topic.who.as_slice(),
                ).param(time.as_slice());
                proof {
                    crate::reply::lemma_with_params_3(head, channel_name@, topic.who@, time@);
                }
                rb.push(msg);
                assert(rb.staged() =~= old(rb).staged() + Self::topic_replies(
                    old(rb).head(),
                    self.channels@[at as int].chan@,
                    channel_name@,
                    send_error,
                ));
            },
            None => {
                if send_error {
                    rb.reply1(rpl::NOTOPIC, channel_name, lines::NO_TOPIC.as_bytes());
                }
                assert(rb.staged() =~= old(rb).staged() + Self::topic_replies(
                    old(rb).head(),
                    self.channels@[at as int].chan@,
                    channel_name@,
                    send_error,
                ));
            },
        }
    }

    /// The replies that greet a client that has registered: the welcome,
    /// the host, the day of the start of the server and what the server
    /// is; then what it supports, the numbers of clients and channels, and
    /// the message of the day.
    pub open spec fn welcome_replies(&self, head: ReplyHead, id: usize) -> Seq<
        crate::buffer::LineView,
    > {
        seq![
            numeric_of(head, rpl::WELCOME, seq![], welcome_text(self.client(id))),
            numeric_of(
                head,
                rpl::YOURHOST,
                seq![],
                lines::YOUR_HOST.spec_bytes() + self.domain@
                    + lines::YOUR_HOST_VERSION.spec_bytes() + lines::SERVER_VERSION.spec_bytes(),
            ),
            numeric_of(head, rpl::CREATED, seq![], lines::CREATED.spec_bytes() + self.created_at@),
            numeric_bare_of(
                head,
                rpl::MYINFO,
                seq![
                    self.domain@,
                    lines::SERVER_VERSION.spec_bytes(),
                    lines::USER_MODES.spec_bytes(),
                    lines::SIMPLE_CHAN_MODES.spec_bytes(),
                    lines::EXTENDED_CHAN_MODES.spec_bytes(),
                ],
            ),
        ] + self.i_support_replies(head) + self.lusers_replies(head) + self.motd_replies(head)
    }

    /// Stages the replies that greet a client that has registered; the
    /// first of them is the welcome.
    pub fn send_welcome(&self, id: usize, rb: &mut ReplyBuffer)
        requires
            old(rb).wf(),
            self.has_client(id),
        ensures
            final(rb).wf(),
            old(rb).extended_by(final(rb)),
            final(rb).staged() == old(rb).staged() + self.welcome_replies(old(rb).head(), id),
            final(rb).staged().len() > old(rb).staged().len(),
            final(rb).staged()[old(rb).staged().len() as int] == old(rb).numeric(
                rpl::WELCOME,
                seq![],
                welcome_text(self.client(id)),
            ),
    {
        let name = match table_get(&self.clients, id) {
            Some(client) => client.full_name(),
            None => Vec::new(),
        };
        let mut text = from_str(lines::WELCOME);
        append(&mut text, name.as_slice());
        rb.reply0(rpl::WELCOME, text.as_slice());
        let mut text = from_str(lines::YOUR_HOST);
        append(&mut text, self.domain.as_slice());
        append_str(&mut text, lines::YOUR_HOST_VERSION);
        append_str(&mut text, lines::SERVER_VERSION);
        rb.reply0(rpl::YOURHOST, text.as_slice());
        let mut text = from_str(lines::CREATED);
        append(&mut text, self.created_at.as_slice());
        rb.reply0(rpl::CREATED, text.as_slice());
        let mut params: Vec<Vec<u8>> = Vec::new();
        params.push(to_vec(self.domain.as_slice()));
        params.push(from_str(lines::SERVER_VERSION));
        params.push(from_str(lines::USER_MODES));
        params.push(from_str(lines::SIMPLE_CHAN_MODES));
        params.push(from_str(lines::EXTENDED_CHAN_MODES));
        assert(crate::text::views(params@) =~= seq![
            self.domain@,
            lines::SERVER_VERSION.spec_bytes(),
            lines::USER_MODES.spec_bytes(),
            lines::SIMPLE_CHAN_MODES.spec_bytes(),
            lines::EXTENDED_CHAN_MODES.spec_bytes(),
        ]);
        rb.reply_all(rpl::MYINFO, &params, None);
        self.send_i_support(rb);
        self.send_lusers(rb);
        self.send_motd(rb);
        assert(rb.staged() =~= old(rb).staged() + self.welcome_replies(old(rb).head(), id));
    }

    /// The replies to `ADMIN`; `r` is what its handler returns.
    pub open spec fn admin_outcome(
        before: &Self,
        rb_before: &ReplyBuffer,
        rb_after: &ReplyBuffer,
        r: Result<(), ()>,
    ) -> bool {
        &&& (r.is_ok())
        &&& (rb_after.staged() == rb_before.staged() + seq![
                rb_before.numeric(rpl::ADMINME, seq![before.domain@], lines::ADMIN_ME.spec_bytes()),
                rb_before.numeric(rpl::ADMINLOC1, seq![], before.org_name@),
                rb_before.numeric(rpl::ADMINLOC2, seq![], before.org_location@),
                rb_before.numeric(rpl::ADMINMAIL, seq![], before.org_mail@),
            ])
    }

    /// `ADMIN`: who runs the server.
    pub fn cmd_admin(&self, rb: &mut ReplyBuffer) -> (r: Result<(), ()>)
        requires
            old(rb).wf(),
        ensures
            final(rb).wf(),
            old(rb).extended_by(final(rb)),
            Self::admin_outcome(self, old(rb), final(rb), r),
    {
        rb.reply1(rpl::ADMINME, self.domain.as_slice(), lines::ADMIN_ME.as_bytes());
        rb.reply0(rpl::ADMINLOC1, self.org_name.as_slice());
        rb.reply0(rpl::ADMINLOC2, self.org_location.as_slice());
        rb.reply0(rpl::ADMINMAIL, self.org_mail.as_slice());
        assert(rb.staged() =~= old(rb).staged() + seq![
            old(rb).numeric(rpl::ADMINME, seq![self.domain@], lines::ADMIN_ME.spec_bytes()),
            old(rb).numeric(rpl::ADMINLOC1, seq![], self.org_name@),
            old(rb).numeric(rpl::ADMINLOC2, seq![], self.org_location@),
            old(rb).numeric(rpl::ADMINMAIL, seq![], self.org_mail@),
        ]);
        Ok(())
    }

    /// The replies to `INFO`; `r` is what its handler returns.
    pub open spec fn info_outcome(
        before: &Self,
        rb_before: &ReplyBuffer,
        rb_after: &ReplyBuffer,
        r: Result<(), ()>,
    ) -> bool {
        &&& (r.is_ok())
        &&& (rb_after.staged() == rb_before.staged() + seq![
                rb_before.numeric(rpl::INFO, seq![], lines::SERVER_INFO.spec_bytes()),
                rb_before.numeric(rpl::ENDOFINFO, seq![], lines::END_OF_INFO.spec_bytes()),
            ])
    }

    /// `INFO`: what the server is.
    pub fn cmd_info(&self, rb: &mut ReplyBuffer) -> (r: Result<(), ()>)
        requires
            old(rb).wf(),
        ensures
            final(rb).wf(),
            old(rb).extended_by(final(rb)),
            Self::info_outcome(self, old(rb), final(rb), r),
    {
        rb.reply0(rpl::INFO, lines::SERVER_INFO.as_bytes());
        rb.reply0(rpl::ENDOFINFO, lines::END_OF_INFO.as_bytes());
        assert(rb.staged() =~= old(rb).staged() + seq![
            old(rb).numeric(rpl::INFO, seq![], lines::SERVER_INFO.spec_bytes()),
            old(rb).numeric(rpl::ENDOFINFO, seq![], lines::END_OF_INFO.spec_bytes()),
        ]);
        Ok(())
    }

    /// The replies to `LUSERS`; `r` is what its handler returns.
    pub open spec fn lusers_outcome(
        before: &Self,
        rb_before: &ReplyBuffer,
        rb_after: &ReplyBuffer,
        r: Result<(), ()>,
    ) -> bool {
        &&& (r.is_ok())
        &&& (rb_after.staged() == rb_before.staged() + before.lusers_replies(rb_before.head()))
    }

    /// `LUSERS`: how many clients and channels there are.
    pub fn cmd_lusers(&self, rb: &mut ReplyBuffer) -> (r: Result<(), ()>)
        requires
            old(rb).wf(),
        ensures
            final(rb).wf(),
            old(rb).extended_by(final(rb)),
            Self::lusers_outcome(self, old(rb), final(rb), r),
    {
        self.send_lusers(rb);
        Ok(())
    }

    /// The replies to `MOTD`; `r` is what its handler returns.
    pub open spec fn motd_outcome(
        before: &Self,
        rb_before: &ReplyBuffer,
        rb_after: &ReplyBuffer,
        r: Result<(), ()>,
    ) -> bool {
        &&& (r.is_ok())
        &&& (rb_after.staged() == rb_before.staged() + before.motd_replies(rb_before.head()))
    }

    /// `MOTD`: the message of the day.
    pub fn cmd_motd(&self, rb: &mut ReplyBuffer) -> (r: Result<(), ()>)
        requires
            old(rb).wf(),
        ensures
            final(rb).wf(),
            old(rb).extended_by(final(rb)),
            Self::motd_outcome(self, old(rb), final(rb), r),
    {
        self.send_motd(rb);
        Ok(())
    }

    /// The replies to `PING`; `r` is what its handler returns.
    pub open spec fn ping_outcome(
        before: &Self,
        rb_before: &ReplyBuffer,
        rb_after: &ReplyBuffer,
        payload: Seq<u8>,
        r: Result<(), ()>,
    ) -> bool {
        &&& (r.is_ok())
        &&& (rb_after.staged() == rb_before.staged().push(
                rb_before.other(
                    seq![],
                    "PONG".spec_bytes(),
                    seq![before.domain@],
                    Some(payload),
                ),
            ))
    }

    /// `PING`: answered with a `PONG` that carries the domain of the
    /// server and the payload.
    pub fn cmd_ping(&self, rb: &mut ReplyBuffer, payload: &[u8]) -> (r: Result<(), ()>)
        requires
            old(rb).wf(),
        ensures
            final(rb).wf(),
            old(rb).extended_by(final(rb)),
            Self::ping_outcome(self, old(rb), final(rb), payload@, r),
    {
        let mut params: Vec<Vec<u8>> = Vec::new();
        params.push(to_vec(self.domain.as_slice()));
        let none: Vec<u8> = Vec::new();
        assert(crate::text::views(params@) =~= seq![self.domain@]);
        assert(none@ =~= seq![]);
        rb.send(none.as_slice(), "PONG".as_bytes(), &params, Some(payload));
        Ok(())
    }

    /// The replies to `TIME`; `r` is what its handler returns.
    pub open spec fn time_outcome(
        before: &Self,
        rb_before: &ReplyBuffer,
        rb_after: &ReplyBuffer,
        time: Seq<u8>,
        r: Result<(), ()>,
    ) -> bool {
        &&& (r.is_ok())
        &&& (rb_after.staged() == rb_before.staged().push(
                rb_before.numeric(rpl::TIME, seq![before.domain@], time),
            ))
    }

    /// `TIME`: the time of the server, as its surroundings give it.
    pub fn cmd_time(&self, rb: &mut ReplyBuffer, time: &[u8]) -> (r: Result<(), ()>)
        requires
            old(rb).wf(),
        ensures
            final(rb).wf(),
            old(rb).extended_by(final(rb)),
            Self::time_outcome(self, old(rb), final(rb), time@, r),
    {
        rb.reply1(rpl::TIME, self.domain.as_slice(), time);
        Ok(())
    }

    /// The replies to `VERSION`; `r` is what its handler returns.
    pub open spec fn version_outcome(
        before: &Self,
        rb_before: &ReplyBuffer,
        rb_after: &ReplyBuffer,
        r: Result<(), ()>,
    ) -> bool {
        &&& (r.is_ok())
        &&& (rb_after.staged() == rb_before.staged().push(
                rb_before.numeric_bare(
                    rpl::VERSION,
                    seq![lines::SERVER_VERSION.spec_bytes(), before.domain@],
                ),
            ))
    }

    /// `VERSION`: the version of the server.
    pub fn cmd_version(&self, rb: &mut ReplyBuffer) -> (r: Result<(), ()>)
        requires
            old(rb).wf(),
        ensures
            final(rb).wf(),
            old(rb).extended_by(final(rb)),
            Self::version_outcome(self, old(rb), final(rb), r),
    {
        let ghost head = rb.reply_head(rpl::VERSION);
        let msg = rb.reply(rpl::VERSION).param(lines::SERVER_VERSION.as_bytes()).param(
            self.domain.as_slice(),
        );
        proof {
            crate::reply::lemma_with_params_2(
                head,
                lines::SERVER_VERSION.spec_bytes(),
                self.domain@,
            );
        }
        rb.push(msg);
        Ok(())
    }

    /// The replies that list the members of the channels named in
    /// `targets` from `i` on; the names are parted by commas.
    pub open spec fn names_from(&self, head: ReplyHead, id: usize, targets: Seq<u8>, i: int) -> Seq<
        crate::buffer::LineView,
    >
        decreases targets.len() - i,
    {
        if i < 0 || i >= targets.len() {
            Seq::<crate::buffer::LineView>::empty()
        } else {
            let end = crate::text::position(targets, i, COMMA);
            let here = if end > i {
                self.names_replies(head, id, targets.subrange(i, end))
            } else {
                Seq::<crate::buffer::LineView>::empty()
            };
            if i <= end < targets.len() {
                here + self.names_from(head, id, targets, end + 1)
            } else {
                here
            }
        }
    }

    /// The replies to `NAMES`; `r` is what its handler returns.
    pub open spec fn names_outcome(
        before: &Self,
        id: usize,
        rb_before: &ReplyBuffer,
        rb_after: &ReplyBuffer,
        targets: Seq<u8>,
        r: Result<(), ()>,
    ) -> bool {
        &&& (r.is_ok())
        &&& (rb_after.staged() == rb_before.staged() + (if targets.len() == 0 {
                seq![
                    numeric_of(
                        rb_before.head(),
                        rpl::ENDOFNAMES,
                        seq![seq![STAR]],
                        lines::END_OF_NAMES.spec_bytes(),
                    ),
                ]
            } else {
                before.names_from(rb_before.head(), id, targets, 0)
            }))
    }

    /// `NAMES`: the members of each channel of a list of names parted by
    /// commas; without names, only the end of the list.
    pub fn cmd_names(&self, id: usize, rb: &mut ReplyBuffer, targets: &[u8]) -> (r: Result<(), ()>)
        requires
            old(rb).wf(),
        ensures
            final(rb).wf(),
            old(rb).extended_by(final(rb)),
            Self::names_outcome(self, id, old(rb), final(rb), targets@, r),
    {
        if targets.len() == 0 {
            let mut star: Vec<u8> = Vec::new();
            star.push(STAR);
            assert(star@ =~= seq![STAR]);
            rb.reply1(rpl::ENDOFNAMES, star.as_slice(), lines::END_OF_NAMES.as_bytes());
            assert(rb.staged() =~= old(rb).staged() + seq![
                numeric_of(
                    old(rb).head(),
                    rpl::ENDOFNAMES,
                    seq![seq![STAR]],
                    lines::END_OF_NAMES.spec_bytes(),
                ),
            ]);
            return Ok(());
        }
        let ghost all = self.names_from(old(rb).head(), id, targets@, 0);
        let ghost mut done: Seq<crate::buffer::LineView> = Seq::empty();
        let mut i: usize = 0;
        assert(done + all =~= all);
        assert(rb.staged() =~= old(rb).staged() + done);
        while i < targets.len()
            invariant_except_break
                done + self.names_from(old(rb).head(), id, targets@, i as int) == all,
            invariant
                i <= targets.len(),
                rb.wf(),
                old(rb).extended_by(rb),
                all == self.names_from(old(rb).head(), id, targets@, 0),
                rb.staged() == old(rb).staged() + done,
            ensures
                done == all,
            decreases targets.len() - i,
        {
            let end = find(targets, i, COMMA);
            let ghost rest = self.names_from(old(rb).head(), id, targets@, i as int);
            let ghost here = if end > i {
                self.names_replies(old(rb).head(), id, targets@.subrange(i as int, end as int))
            } else {
                Seq::<crate::buffer::LineView>::empty()
            };
            if end > i {
                let name = slice(targets, i, end);
                self.send_names(id, rb, name.as_slice());
            }
            proof {
                assert(rb.staged() =~= old(rb).staged() + (done + here));
                if end < targets.len() {
                    assert((done + here) + self.names_from(old(rb).head(), id, targets@, end + 1)
                        =~= done + rest);
                } else {
                    assert(done + here =~= done + rest);
                }
                done = done + here;
            }
            if end >= targets.len() {
                break ;
            }
            i = end + 1;
        }
        proof {
            if i >= targets.len() {
                assert(done + self.names_from(old(rb).head(), id, targets@, i as int) =~= done);
            }
        }
        Ok(())
    }

    /// The entry of a channel in a list of channels: its name, the number
    /// of its members and its topic.  There is none for a secret channel
    /// that the client is no member of.
    pub open spec fn list_entry(head: ReplyHead, id: usize, entry: crate::state::ChannelEntry) -> Seq<
        crate::buffer::LineView,
    > {
        let ch = entry.chan@;
        if ch.secret && !crate::channel::is_member(ch.members, id) {
            Seq::<crate::buffer::LineView>::empty()
        } else {
            seq![
                numeric_of(
                    head,
                    rpl::LIST,
                    seq![entry.name@, crate::text::decimal(ch.members.len())],
                    match ch.topic {
                        Some(t) => t.content,
                        None => Seq::<u8>::empty(),
                    },
                ),
            ]
        }
    }

    /// The entries of the channels of a list.
    pub open spec fn list_all(
        head: ReplyHead,
        id: usize,
        channels: Seq<crate::state::ChannelEntry>,
    ) -> Seq<crate::buffer::LineView>
        decreases channels.len(),
    {
        if channels.len() == 0 {
            Seq::<crate::buffer::LineView>::empty()
        } else {
            Self::list_all(head, id, channels.drop_last()) + Self::list_entry(
                head,
                id,
                channels.last(),
            )
        }
    }

    /// The entries of the channels named in `targets` from `i` on; a name
    /// of no channel has no entry.
    pub open spec fn list_from(&self, head: ReplyHead, id: usize, targets: Seq<u8>, i: int) -> Seq<
        crate::buffer::LineView,
    >
        decreases targets.len() - i,
    {
        if i < 0 || i >= targets.len() {
            Seq::<crate::buffer::LineView>::empty()
        } else {
            let end = crate::text::position(targets, i, COMMA);
            let at = crate::state::base::channel_index(
                self.channels@,
                crate::text::fold(targets.subrange(i, end)),
            );
            let here = if end > i && 0 <= at < self.channels@.len() {
                Self::list_entry(head, id, self.channels@[at])
            } else {
                Seq::<crate::buffer::LineView>::empty()
            };
            if i <= end < targets.len() {
                here + self.list_from(head, id, targets, end + 1)
            } else {
                here
            }
        }
    }

    /// Stages the entry of the channel at `at` in a list of channels.
    fn list_one(&self, id: usize, rb: &mut ReplyBuffer, at: usize)
        requires
            old(rb).wf(),
            at < self.channels@.len(),
        ensures
            final(rb).wf(),
            old(rb).extended_by(final(rb)),
            final(rb).staged() == old(rb).staged() + Self::list_entry(
                old(rb).head(),
                id,
                self.channels@[at as int],
            ),
    {
        let entry = &self.channels[at];
        if entry.chan.secret && !entry.chan.has_member(id) {
            assert(rb.staged() =~= old(rb).staged() + Self::list_entry(
                old(rb).head(),
                id,
                self.channels@[at as int],
            ));
            return ;
        }
        let ghost head = rb.reply_head(rpl::LIST);
        let msg = rb.reply(rpl::LIST).param(entry.name.as_slice());
        let msg = entry.chan.list_entry(msg);
        proof {
            crate::reply::lemma_with_params_2(
                head,
                entry.name@,
                crate::text::decimal(entry.chan@.members.len()),
            );
        }
        rb.push(msg);
        assert(rb.staged() =~= old(rb).staged() + Self::list_entry(
            old(rb).head(),
            id,
            self.channels@[at as int],
        ));
    }

    /// The replies to `LIST`; `r` is what its handler returns.
    pub open spec fn list_outcome(
        before: &Self,
        id: usize,
        rb_before: &ReplyBuffer,
        rb_after: &ReplyBuffer,
        targets: Seq<u8>,
        r: Result<(), ()>,
    ) -> bool {
        &&& (r.is_ok())
        &&& (rb_after.staged() == rb_before.staged() + (if targets.len() == 0 {
                Self::list_all(rb_before.head(), id, before.channels@)
            } else {
                before.list_from(rb_before.head(), id, targets, 0)
            }) + seq![
                numeric_of(rb_before.head(), rpl::LISTEND, seq![], lines::END_OF_LIST.spec_bytes()),
            ])
    }

    /// `LIST`: the channels, or those of a list of names parted by
    /// commas, and the end of the list.  A secret channel is shown to its
    /// members only.
    pub fn cmd_list(&self, id: usize, rb: &mut ReplyBuffer, targets: &[u8]) -> (r: Result<(), ()>)
        requires
            old(rb).wf(),
        ensures
            final(rb).wf(),
            old(rb).extended_by(final(rb)),
            Self::list_outcome(self, id, old(rb), final(rb), targets@, r),
    {
        let ghost head = old(rb).head();
        let ghost mut done: Seq<crate::buffer::LineView> = Seq::empty();
        assert(rb.staged() =~= old(rb).staged() + done);
        if targets.len() == 0 {
            let mut at: usize = 0;
            assert(self.channels@.subrange(0, 0) =~= Seq::<crate::state::ChannelEntry>::empty());
            while at < self.channels.len()
                invariant
                    at <= self.channels@.len(),
                    rb.wf(),
                    old(rb).extended_by(rb),
                    head == old(rb).head(),
                    done == Self::list_all(head, id, self.channels@.subrange(0, at as int)),
                    rb.staged() == old(rb).staged() + done,
                decreases self.channels@.len() - at,
            {
                let ghost now = self.channels@.subrange(0, at + 1);
                assert(now.drop_last() =~= self.channels@.subrange(0, at as int));
                assert(now.last() == self.channels@[at as int]);
                self.list_one(id, rb, at);
                proof {
                    let here = Self::list_entry(head, id, self.channels@[at as int]);
                    assert(rb.staged() =~= old(rb).staged() + (done + here));
                    done = done + here;
                }
                at += 1;
            }
            assert(self.channels@.subrange(0, self.channels@.len() as int) =~= self.channels@);
        } else {
            let ghost all = self.list_from(head, id, targets@, 0);
            let mut i: usize = 0;
            assert(done + all =~= all);
            while i < targets.len()
                invariant_except_break
                    done + self.list_from(head, id, targets@, i as int) == all,
                invariant
                    i <= targets.len(),
                    rb.wf(),
                    old(rb).extended_by(rb),
                    head == old(rb).head(),
                    all == self.list_from(head, id, targets@, 0),
                    rb.staged() == old(rb).staged() + done,
                ensures
                    done == all,
                decreases targets.len() - i,
            {
                let end = find(targets, i, COMMA);
                let ghost rest = self.list_from(head, id, targets@, i as int);
                let ghost mut here: Seq<crate::buffer::LineView> = Seq::empty();
                if end > i {
                    let name = slice(targets, i, end);
                    let at = self.channel_position(name.as_slice());
                    if at < self.channels.len() {
                        self.list_one(id, rb, at);
                        proof {
                            here = Self::list_entry(head, id, self.channels@[at as int]);
                        }
                    }
                }
                proof {
                    assert(rb.staged() =~= old(rb).staged() + (done + here));
                    if end < targets.len() {
                        assert((done + here) + self.list_from(head, id, targets@, end + 1) =~= done
                            + rest);
                    } else {
                        assert(done + here =~= done + rest);
                    }
                    done = done + here;
                }
                if end >= targets.len() {
                    break ;
                }
                i = end + 1;
            }
            proof {
                if i >= targets.len() {
                    assert(done + self.list_from(head, id, targets@, i as int) =~= done);
                }
            }
        }
        rb.reply0(rpl::LISTEND, lines::END_OF_LIST.as_bytes());
        assert(rb.staged() =~= old(rb).staged() + done + seq![
            numeric_of(head, rpl::LISTEND, seq![], lines::END_OF_LIST.spec_bytes()),
        ]);
        Ok(())
    }

    /// The signs of a client in a list of who is there: `G` where it is
    /// away, else `H`; `*` for an operator of the server; and its sign on
    /// the channel.
    pub open spec fn who_flags(c: crate::client::ClientView, symbol: Option<u8>) -> Seq<u8> {
        seq![if c.away_message.is_some() {
            0x47u8
        } else {
            0x48u8
        }] + (if c.operator {
            seq![STAR]
        } else {
            Seq::<u8>::empty()
        }) + (match symbol {
            Some(s) => seq![s],
            None => Seq::<u8>::empty(),
        })
    }

    /// The entry of one client in a list of who is there.
    pub open spec fn who_line(
        &self,
        head: ReplyHead,
        channel: Seq<u8>,
        c: crate::client::ClientView,
        symbol: Option<u8>,
    ) -> crate::buffer::LineView {
        numeric_of(
            head,
            rpl::WHOREPLY,
            seq![channel, c.user, c.host, self.domain@, c.nick, Self::who_flags(c, symbol)],
            seq![0x30u8, SPACE] + c.real,
        )
    }

    /// Stages the entry of one client in a list of who is there.
    fn who_one(&self, rb: &mut ReplyBuffer, channel_name: &[u8], client: &Client, symbol: Option<u8>)
        requires
            old(rb).wf(),
        ensures
            final(rb).wf(),
            old(rb).extended_by(final(rb)),
            final(rb).staged() == old(rb).staged().push(
                self.who_line(old(rb).head(), channel_name@, client@, symbol),
            ),
    {
        let mut flags: Vec<u8> = Vec::new();
        if client.away_message.is_some() {
            flags.push(0x47);
        } else {
            flags.push(0x48);
        }
        if client.operator {
            flags.push(STAR);
        }
        match symbol {
            Some(s) => flags.push(s),
            None => {},
        }
        assert(flags@ =~= Self::who_flags(client@, symbol));
        let mut text: Vec<u8> = Vec::new();
        text.push(0x30);
        text.push(SPACE);
        append(&mut text, client.real.as_slice());
        assert(text@ =~= seq![0x30u8, SPACE] + client@.real);
        let mut params: Vec<Vec<u8>> = Vec::new();
        params.push(to_vec(channel_name));
        params.push(to_vec(client.user.as_slice()));
        params.push(to_vec(client.host.as_slice()));
        params.push(to_vec(self.domain.as_slice()));
        params.push(to_vec(client.nick.as_slice()));
        params.push(flags);
        assert(crate::text::views(params@) =~= seq![
            channel_name@,
            client@.user,
            client@.host,
            self.domain@,
            client@.nick,
            Self::who_flags(client@, symbol),
        ]);
        rb.reply_all(rpl::WHOREPLY, &params, Some(text.as_slice()));
    }

    /// The sign of a member on its channel, where it has one.
    pub open spec fn member_symbol(modes: crate::channel::MemberModes) -> Option<u8> {
        if modes.operator {
            Some(crate::channel::SYMBOL_OPERATOR)
        } else if modes.voice {
            Some(crate::channel::SYMBOL_VOICE)
        } else {
            None
        }
    }

    /// The entries of the members of a channel in a list of who is there.
    pub open spec fn who_members(
        &self,
        head: ReplyHead,
        channel: Seq<u8>,
        members: Seq<crate::channel::Member>,
    ) -> Seq<crate::buffer::LineView>
        decreases members.len(),
    {
        if members.len() == 0 {
            Seq::<crate::buffer::LineView>::empty()
        } else {
            let before = self.who_members(head, channel, members.drop_last());
            let member = members.last();
            if self.has_client(member.id) {
                before.push(
                    self.who_line(
                        head,
                        channel,
                        self.client(member.id),
                        Self::member_symbol(member.modes),
                    ),
                )
            } else {
                before
            }
        }
    }

    /// The entries of a list of who is there: the members of the channel
    /// that the mask names, unless it is secret and the client no member;
    /// or the client whose nickname the mask is.
    pub open spec fn who_entries(&self, head: ReplyHead, id: usize, mask: Seq<u8>) -> Seq<
        crate::buffer::LineView,
    > {
        let at = crate::state::base::channel_index(self.channels@, crate::text::fold(mask));
        if 0 <= at < self.channels@.len() {
            let ch = self.channels@[at].chan@;
            if !ch.secret || crate::channel::is_member(ch.members, id) {
                self.who_members(head, mask, ch.members)
            } else {
                Seq::<crate::buffer::LineView>::empty()
            }
        } else if self.nicks@.dom().contains(crate::text::fold(mask)) && self.has_client(
            self.nicks@[crate::text::fold(mask)],
        ) {
            seq![
                self.who_line(
                    head,
                    seq![STAR],
                    self.client(self.nicks@[crate::text::fold(mask)]),
                    None,
                ),
            ]
        } else {
            Seq::<crate::buffer::LineView>::empty()
        }
    }

    /// The replies to `WHO`; `r` is what its handler returns.
    pub open spec fn who_outcome(
        before: &Self,
        id: usize,
        rb_before: &ReplyBuffer,
        rb_after: &ReplyBuffer,
        mask: Seq<u8>,
        r: Result<(), ()>,
    ) -> bool {
        &&& (r.is_ok())
        &&& (rb_after.staged() == rb_before.staged() + before.who_entries(rb_before.head(), id, mask)
                + seq![
                numeric_of(
                    rb_before.head(),
                    rpl::ENDOFWHO,
                    seq![mask],
                    lines::END_OF_WHO.spec_bytes(),
                ),
            ])
    }

    /// `WHO`: the members of a channel, or the client with a nickname, and
    /// the end of the list.
    pub fn cmd_who(&self, id: usize, rb: &mut ReplyBuffer, mask: &[u8]) -> (r: Result<(), ()>)
        requires
            old(rb).wf(),
        ensures
            final(rb).wf(),
            old(rb).extended_by(final(rb)),
            Self::who_outcome(self, id, old(rb), final(rb), mask@, r),
    {
        let ghost head = old(rb).head();
        let ghost mut done: Seq<crate::buffer::LineView> = Seq::empty();
        assert(rb.staged() =~= old(rb).staged() + done);
        let at = self.channel_position(mask);
        if at < self.channels.len() {
            let chan = &self.channels[at].chan;
            if !chan.secret || chan.has_member(id) {
                let mut i: usize = 0;
                let ghost members = chan.members@;
                assert(members.subrange(0, 0) =~= Seq::<crate::channel::Member>::empty());
                while i < chan.members.len()
                    invariant
                        i <= chan.members@.len(),
                        members == chan.members@,
                        rb.wf(),
                        old(rb).extended_by(rb),
                        head == old(rb).head(),
                        done == self.who_members(head, mask@, members.subrange(0, i as int)),
                        rb.staged() == old(rb).staged() + done,
                    decreases chan.members@.len() - i,
                {
                    let ghost now = members.subrange(0, i + 1);
                    assert(now.drop_last() =~= members.subrange(0, i as int));
                    assert(now.last() == members[i as int]);
                    let member = chan.members[i];
                    match table_get(&self.clients, member.id) {
                        Some(client) => {
                            self.who_one(rb, mask, client, member.modes.symbol());
                            proof {
                                let line = self.who_line(
                                    head,
                                    mask@,
                                    client@,
                                    Self::member_symbol(member.modes),
                                );
                                assert(rb.staged() =~= old(rb).staged() + done.push(line));
                                done = done.push(line);
                            }
                        },
                        None => {},
                    }
                    i += 1;
                }
                assert(members.subrange(0, members.len() as int) =~= members);
            }
        } else {
            let key = crate::text::folded(mask);
            match self.nicks.get(key.as_slice()) {
                Some(other) => match table_get(&self.clients, other) {
                    Some(client) => {
                        let mut star: Vec<u8> = Vec::new();
                        star.push(STAR);
                        assert(star@ =~= seq![STAR]);
                        self.who_one(rb, star.as_slice(), client, None);
                        proof {
                            let line = self.who_line(head, seq![STAR], client@, None);
                            assert(rb.staged() =~= old(rb).staged() + done.push(line));
                            done = done.push(line);
                        }
                    },
                    None => {},
                },
                None => {},
            }
        }
        assert(done =~= self.who_entries(head, id, mask@));
        rb.reply1(rpl::ENDOFWHO, mask, lines::END_OF_WHO.as_bytes());
        assert(rb.staged() =~= old(rb).staged() + done + seq![
            numeric_of(head, rpl::ENDOFWHO, seq![mask@], lines::END_OF_WHO.spec_bytes()),
        ]);
        Ok(())
    }

    /// The time that a client has been idle.
    pub open spec fn idle(c: crate::client::ClientView, now: u64) -> nat {
        if now >= c.last_action_time {
            (now - c.last_action_time) as nat
        } else {
            0
        }
    }

    /// What the server tells of a client: who it is, on which server,
    /// whether it is an operator, how long it has been idle and since
    /// when it is there, and its away message.
    pub open spec fn whois_replies(&self, head: ReplyHead, c: crate::client::ClientView, now: u64) -> Seq<
        crate::buffer::LineView,
    > {
        seq![
            numeric_of(head, rpl::WHOISUSER, seq![c.nick, c.user, c.host, seq![STAR]], c.real),
            numeric_of(
                head,
                rpl::WHOISSERVER,
                seq![c.nick, self.domain@],
                lines::SERVER_INFO.spec_bytes(),
            ),
        ] + (if c.operator {
            seq![
                numeric_of(
                    head,
                    rpl::WHOISOPERATOR,
                    seq![c.nick],
                    lines::WHOIS_OPERATOR.spec_bytes(),
                ),
            ]
        } else {
            Seq::<crate::buffer::LineView>::empty()
        }) + seq![
            numeric_of(
                head,
                rpl::WHOISIDLE,
                seq![
                    c.nick,
                    crate::text::decimal(Self::idle(c, now)),
                    crate::text::decimal(c.signon_time as nat),
                ],
                lines::WHOIS_IDLE.spec_bytes(),
            ),
        ] + (match c.away_message {
            Some(away) => seq![numeric_of(head, rpl::AWAY, seq![c.nick], away)],
            None => Seq::<crate::buffer::LineView>::empty(),
        })
    }

    /// The replies to `WHOIS`; `r` is what its handler returns.
    pub open spec fn whois_outcome(
        before: &Self,
        rb_before: &ReplyBuffer,
        rb_after: &ReplyBuffer,
        nick: Seq<u8>,
        now: u64,
        r: Result<(), ()>,
    ) -> bool {
        &&& (r.is_ok() == before.nick_owner(nick).is_some())
        &&& (rb_after.staged() == rb_before.staged() + (match before.nick_owner(nick) {
                Some(target) => before.whois_replies(rb_before.head(), before.client(target), now) + seq![
                    numeric_of(
                        rb_before.head(),
                        rpl::ENDOFWHOIS,
                        seq![nick],
                        lines::END_OF_WHOIS.spec_bytes(),
                    ),
                ],
                None => seq![
                    numeric_of(
                        rb_before.head(),
                        rpl::ERR_NOSUCHNICK,
                        seq![nick],
                        lines::NO_SUCH_NICK.spec_bytes(),
                    ),
                ],
            }))
    }

    /// `WHOIS`: what the server tells of the client with a nickname, and
    /// the end of it; or that there is no such client.
    pub fn cmd_whois(&self, rb: &mut ReplyBuffer, nick: &[u8], now: u64) -> (r: Result<(), ()>)
        requires
            old(rb).wf(),
        ensures
            final(rb).wf(),
            old(rb).extended_by(final(rb)),
            Self::whois_outcome(self, old(rb), final(rb), nick@, now, r),
    {
        let ghost head = old(rb).head();
        let target = match self.find_nick(rb, nick) {
            Some(target) => target,
            None => {
                assert(rb.staged() =~= old(rb).staged() + seq![
                    numeric_of(
                        head,
                        rpl::ERR_NOSUCHNICK,
                        seq![nick@],
                        lines::NO_SUCH_NICK.spec_bytes(),
                    ),
                ]);
                return Err(());
            },
        };
        match table_get(&self.clients, target) {
            Some(client) => {
                let mut star: Vec<u8> = Vec::new();
                star.push(STAR);
                assert(star@ =~= seq![STAR]);
                let mut first: Vec<Vec<u8>> = Vec::new();
                first.push(to_vec(client.nick.as_slice()));
                first.push(to_vec(client.user.as_slice()));
                first.push(to_vec(client.host.as_slice()));
                first.push(star);
                assert(crate::text::views(first@) =~= seq![
                    client@.nick,
                    client@.user,
                    client@.host,
                    seq![STAR],
                ]);
                rb.reply_all(rpl::WHOISUSER, &first, Some(client.real.as_slice()));
                rb.reply2(
                    rpl::WHOISSERVER,
                    client.nick.as_slice(),
                    self.domain.as_slice(),
                    lines::SERVER_INFO.as_bytes(),
                );
                if client.operator {
                    rb.reply1(
                        rpl::WHOISOPERATOR,
                        client.nick.as_slice(),
                        lines::WHOIS_OPERATOR.as_bytes(),
                    );
                }
                let idle: u64 = if now >= client.last_action_time {
                    now - client.last_action_time
                } else {
                    0
                };
                let mut idle_digits: Vec<u8> = Vec::new();
                crate::text::append_decimal64(&mut idle_digits, idle);
                let mut signon_digits: Vec<u8> = Vec::new();
                crate::text::append_decimal64(&mut signon_digits, client.signon_time);
                assert(idle_digits@ =~= crate::text::decimal(Self::idle(client@, now)));
                assert(signon_digits@ =~= crate::text::decimal(client@.signon_time as nat));
                rb.reply3(
                    rpl::WHOISIDLE,
                    client.nick.as_slice(),
                    idle_digits.as_slice(),
                    signon_digits.as_slice(),
                    lines::WHOIS_IDLE.as_bytes(),
                );
                match &client.away_message {
                    Some(away) => rb.reply1(rpl::AWAY, client.nick.as_slice(), away.as_slice()),
                    None => {},
                }
                assert(rb.staged() =~= old(rb).staged() + self.whois_replies(head, client@, now));
            },
            None => {},
        }
        rb.reply1(rpl::ENDOFWHOIS, nick, lines::END_OF_WHOIS.as_bytes());
        assert(rb.staged() =~= old(rb).staged() + (self.whois_replies(
            head,
            self.client(target),
            now,
        ) + seq![
            numeric_of(head, rpl::ENDOFWHOIS, seq![nick@], lines::END_OF_WHOIS.spec_bytes()),
        ]));
        Ok(())
    }
}

} // verus!
