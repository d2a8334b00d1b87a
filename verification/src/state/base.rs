//! The state as a whole: how it is made, how clients come and go, and the
//! changes to clients and channels that keep it well formed.

use vstd::prelude::*;
use crate::auth::Provider;
use crate::channel::{is_member, lemma_member_index, lemma_with_member, lemma_without_member, member_index, with_member, without_member, Channel, ChannelView, Member};
use crate::client::{fresh_client, Client, ClientView};
use crate::nicks::NickIndex;
use crate::state::{channel_keys, channels_fit, client_ok, members_known, nicks_fit, ChannelEntry, Config, StateInner};
use crate::table::{table_contains, table_get, table_get_mut, table_insert, table_new, table_remove};
use crate::text::{eq, fold, folded, index_in, lemma_index_in, lemma_index_in_is, to_vec};

verus! {

/// What a channel holds, under its key.
pub struct EntryView {
    pub key: Seq<u8>,
    pub chan: ChannelView,
}

impl View for ChannelEntry {
    type V = EntryView;

    open spec fn view(&self) -> EntryView {
        EntryView { key: self.key@, chan: self.chan@ }
    }
}

/// What a list of channels holds.
pub open spec fn entry_views(channels: Seq<ChannelEntry>) -> Seq<EntryView> {
    Seq::new(channels.len(), |i: int| channels[i]@)
}

/// The first `n` channels of a list after the client `id` has left them
/// all: each without it among its members, and those left out that had no
/// other member.
pub open spec fn pruned(channels: Seq<EntryView>, id: usize, n: int) -> Seq<EntryView>
    decreases n,
{
    if n <= 0 || n > channels.len() {
        Seq::<EntryView>::empty()
    } else {
        let before = pruned(channels, id, n - 1);
        let entry = channels[n - 1];
        let members = without_member(entry.chan.members, id);
        if members.len() == 0 {
            before
        } else {
            before.push(EntryView { key: entry.key, chan: ChannelView { members, ..entry.chan } })
        }
    }
}

/// The place of the channel with this key, or the number of channels.
pub open spec fn channel_index(channels: Seq<ChannelEntry>, key: Seq<u8>) -> int {
    index_in(channel_keys(channels), key)
}

proof fn lemma_members_known_without(clients: Map<usize, Client>, members: Seq<Member>, id: usize)
    requires
        members_known(clients, members),
    ensures
        members_known(clients, without_member(members, id)),
{
    lemma_member_index(members, id);
    let after = without_member(members, id);
    let at = member_index(members, id);
    assert forall|i: int| 0 <= i < after.len() implies clients.dom().contains(
        (#[trigger] after[i]).id,
    ) && clients[after[i].id]@.state.registered by {
        if is_member(members, id) {
            let a = if i < at {
                i
            } else {
                i + 1
            };
            assert(after[i] == members[a]);
        }
    }
}

impl<P: Provider> StateInner<P> {
    /// Whether the state has what a configuration gives, the limit of
    /// nicknames apart: the message of the day is there where its text is
    /// not empty.
    pub open spec fn configured(&self, config: &Config) -> bool {
        &&& self.domain == config.domain
        &&& self.org_name == config.org_name
        &&& self.org_location == config.org_location
        &&& self.org_mail == config.org_mail
        &&& self.motd == (if config.motd_file@.len() == 0 {
            None
        } else {
            Some(config.motd_file)
        })
        &&& self.password == config.password
        &&& self.default_chan_mode == config.default_chan_mode
        &&& self.opers == config.opers
        &&& self.awaylen == config.awaylen
        &&& self.channellen == config.channellen
        &&& self.kicklen == config.kicklen
        &&& self.namelen == config.namelen
        &&& self.topiclen == config.topiclen
        &&& self.userlen == config.userlen
        &&& self.login_timeout == config.login_timeout
    }

    /// A state without clients and channels, with the given configuration.
    pub fn new(config: Config, auth_provider: P, created_at: Vec<u8>) -> (state: StateInner<P>)
        ensures
            state.wf(),
            forall|id: usize| !state.has_client(id),
            state.channels@.len() == 0,
            state.nicks@ == Map::<Seq<u8>, usize>::empty(),
            state.configured(&config),
            state.nicklen == config.nicklen,
            state.created_at == created_at,
            state.auth_provider == auth_provider,
            !state.rehash_requested,
    {
        let motd = if config.motd_file.len() == 0 {
            None
        } else {
            Some(config.motd_file)
        };
        let state = StateInner {
            domain: config.domain,
            org_name: config.org_name,
            org_location: config.org_location,
            org_mail: config.org_mail,
            clients: table_new(),
            nicks: NickIndex::new(),
            channels: Vec::new(),
            created_at,
            motd,
            password: config.password,
            default_chan_mode: config.default_chan_mode,
            opers: config.opers,
            awaylen: config.awaylen,
            channellen: config.channellen,
            kicklen: config.kicklen,
            namelen: config.namelen,
            nicklen: config.nicklen,
            topiclen: config.topiclen,
            userlen: config.userlen,
            login_timeout: config.login_timeout,
            auth_provider,
            rehash_requested: false,
        };
        state
    }

    /// Takes a new configuration.  The clients, their nicknames and the
    /// channels stay as they are; the limit of nicknames stays too.
    pub fn rehash(&mut self, config: Config, auth_provider: P)
        requires
            old(self).wf(),
        ensures
            final(self).wf(),
            final(self).clients == old(self).clients,
            final(self).nicks == old(self).nicks,
            final(self).channels == old(self).channels,
            final(self).created_at == old(self).created_at,
            final(self).nicklen == old(self).nicklen,
            final(self).configured(&config),
            final(self).auth_provider == auth_provider,
            !final(self).rehash_requested,
    {
        self.domain = config.domain;
        self.org_name = config.org_name;
        self.org_location = config.org_location;
        self.org_mail = config.org_mail;
        self.motd = if config.motd_file.len() == 0 {
            None
        } else {
            Some(config.motd_file)
        };
        self.password = config.password;
        self.default_chan_mode = config.default_chan_mode;
        self.opers = config.opers;
        self.awaylen = config.awaylen;
        self.channellen = config.channellen;
        self.kicklen = config.kicklen;
        self.namelen = config.namelen;
        self.topiclen = config.topiclen;
        self.userlen = config.userlen;
        self.login_timeout = config.login_timeout;
        self.auth_provider = auth_provider;
        self.rehash_requested = false;
    }

    /// Takes in a connection from `host` and returns the identifier of the
    /// new client, which has no nickname and is on no channel.
    pub fn peer_joined(&mut self, host: Vec<u8>, now: u64) -> (id: usize)
        requires
            old(self).wf(),
        ensures
            final(self).wf(),
            !old(self).has_client(id),
            final(self).has_client(id),
            final(self).client(id) == fresh_client(host@, now),
            final(self).clients() == old(self).clients().insert(id, final(self).clients()[id]),
            final(self).same_but_clients(old(self)),
    {
        let client = Client::new(host, now);
        let id = table_insert(&mut self.clients, client);
        proof {
            let before = old(self).clients();
            let after = self.clients();
            assert forall|other: usize| #[trigger] self.clients().dom().contains(other) implies client_ok(
                self.clients()[other]@,
            ) by {
                if other != id {
                    assert(old(self).clients().dom().contains(other));
                }
            }
            assert(nicks_fit(after, self.nicks@)) by {
                assert forall|key: Seq<u8>| #[trigger]
                    self.nicks@.dom().contains(key) implies after.dom().contains(self.nicks@[key])
                    && fold(after[self.nicks@[key]]@.nick) == key && after[self.nicks@[key]]@.nick.len()
                    > 0 by {
                    assert(before.dom().contains(self.nicks@[key]));
                }
            }
            assert(channels_fit(after, self.channels@)) by {
                assert forall|i: int| 0 <= i < self.channels@.len() implies members_known(
                    after,
                    (#[trigger] self.channels@[i]).chan@.members,
                ) by {
                    let members = self.channels@[i].chan@.members;
                    assert(members_known(before, members));
                    assert forall|k: int| 0 <= k < members.len() implies after.dom().contains(
                        (#[trigger] members[k]).id,
                    ) && after[members[k].id]@.state.registered by {
                        assert(before.dom().contains(members[k].id));
                    }
                }
            }
        }
        id
    }

    /// No two clients have nicknames with the same folded form, and the
    /// index of nicknames leads from the folded form of the nickname of
    /// each client to that client.  This holds of all clients that have a
    /// nickname, the registered ones among them.
    pub proof fn lemma_nicks_unique(&self, first: usize, second: usize)
        requires
            self.wf(),
            self.has_client(first),
            self.has_client(second),
            first != second,
            self.client(first).nick.len() > 0,
            self.client(second).nick.len() > 0,
        ensures
            fold(self.client(first).nick) != fold(self.client(second).nick),
            self.nicks@.dom().contains(fold(self.client(first).nick)),
            self.nicks@[fold(self.client(first).nick)] == first,
            self.nicks@[fold(self.client(second).nick)] == second,
    {
        assert(self.clients().dom().contains(first));
        assert(self.clients().dom().contains(second));
    }

    /// A registered client has a nickname, a user name and a real name,
    /// and no negotiation of capabilities of it is open.
    pub proof fn lemma_registered_is_named(&self, id: usize)
        requires
            self.wf(),
            self.has_client(id),
            self.client(id).state.registered,
        ensures
            self.client(id).nick.len() > 0,
            self.client(id).user.len() > 0,
            self.client(id).real.len() > 0,
            !self.client(id).state.cap_pending,
    {
        assert(self.clients().dom().contains(id));
    }

    /// Every channel has a member, and every member of a channel is a
    /// client, and a registered one.
    pub proof fn lemma_channels_populated(&self, at: int, member: int)
        requires
            self.wf(),
            0 <= at < self.channels@.len(),
            0 <= member < self.channels@[at].chan@.members.len(),
        ensures
            self.channels@[at].chan@.members.len() > 0,
            self.has_client(self.channels@[at].chan@.members[member].id),
            self.client(self.channels@[at].chan@.members[member].id).state.registered,
    {
        assert(self.channels@[at].chan.wf());
        assert(members_known(self.clients(), self.channels@[at].chan@.members));
    }

    /// A state is well formed after one client was changed, where the
    /// change kept its nickname, left it registered if it was, and left it
    /// as `client_ok` says.
    pub proof fn lemma_client_changed(before: &Self, after: &Self, id: usize)
        requires
            before.wf(),
            after.same_but_clients(before),
            before.has_client(id),
            after.has_client(id),
            after.clients() == before.clients().insert(id, after.clients()[id]),
            after.client(id).nick == before.client(id).nick,
            before.client(id).state.registered ==> after.client(id).state.registered,
            client_ok(after.client(id)),
        ensures
            after.wf(),
    {
        let old_clients = before.clients();
        let new_clients = after.clients();
        assert forall|other: usize| #[trigger] after.clients().dom().contains(other) implies client_ok(
                after.clients()[other]@,
            ) by {
            if other != id {
                assert(before.clients().dom().contains(other));
            }
        }
        assert(nicks_fit(new_clients, after.nicks@)) by {
            assert forall|key: Seq<u8>| #[trigger]
                after.nicks@.dom().contains(key) implies new_clients.dom().contains(
                after.nicks@[key],
            ) && fold(new_clients[after.nicks@[key]]@.nick) == key
                && new_clients[after.nicks@[key]]@.nick.len() > 0 by {
                assert(before.nicks@.dom().contains(key));
            }
            assert forall|other: usize| #[trigger]
                new_clients.dom().contains(other) && new_clients[other]@.nick.len()
                    > 0 implies after.nicks@.dom().contains(fold(new_clients[other]@.nick))
                && after.nicks@[fold(new_clients[other]@.nick)] == other by {
                assert(old_clients.dom().contains(other));
            }
        }
        assert(channels_fit(new_clients, after.channels@)) by {
            assert forall|i: int| 0 <= i < after.channels@.len() implies members_known(
                new_clients,
                (#[trigger] after.channels@[i]).chan@.members,
            ) by {
                let members = after.channels@[i].chan@.members;
                assert(members_known(old_clients, before.channels@[i].chan@.members));
                assert forall|k: int| 0 <= k < members.len() implies new_clients.dom().contains(
                    (#[trigger] members[k]).id,
                ) && new_clients[members[k].id]@.state.registered by {
                    assert(old_clients.dom().contains(members[k].id));
                }
            }
        }
    }

    /// Whether `id` is a client.
    pub fn contains(&self, id: usize) -> (r: bool)
        ensures
            r == self.has_client(id),
    {
        table_contains(&self.clients, id)
    }

    /// The client `id`.
    pub fn get(&self, id: usize) -> (r: Option<&Client>)
        ensures
            r.is_some() == self.has_client(id),
            r.is_some() ==> *r.unwrap() == self.clients()[id],
    {
        table_get(&self.clients, id)
    }

    /// The place of the channel with this name, or the number of channels
    /// where there is none.
    pub fn channel_position(&self, name: &[u8]) -> (at: usize)
        ensures
            at == channel_index(self.channels@, fold(name@)),
            at <= self.channels@.len(),
            at < self.channels@.len() ==> self.channels@[at as int].key@ == fold(name@),
            at == self.channels@.len() ==> !channel_keys(self.channels@).contains(fold(name@)),
    {
        let key = folded(name);
        let ghost keys = channel_keys(self.channels@);
        let mut i: usize = 0;
        while i < self.channels.len()
            invariant
                i <= self.channels@.len(),
                keys == channel_keys(self.channels@),
                key@ == fold(name@),
                forall|j: int| 0 <= j < i ==> keys[j] != key@,
            ensures
                i <= self.channels@.len(),
                i < self.channels@.len() ==> keys[i as int] == key@,
                forall|j: int| 0 <= j < i ==> keys[j] != key@,
            decreases self.channels@.len() - i,
        {
            if eq(self.channels[i].key.as_slice(), key.as_slice()) {
                break ;
            }
            i += 1;
        }
        proof {
            lemma_index_in_is(keys, key@, i as int);
            lemma_index_in(keys, key@);
        }
        i
    }

    /// Gives the client `id` the nickname `nick`, which no client has, and
    /// lists it in the index in place of its old one.
    pub fn set_nick(&mut self, id: usize, nick: &[u8])
        requires
            old(self).wf(),
            old(self).has_client(id),
            nick@.len() > 0,
            !old(self).nicks@.dom().contains(fold(nick@)),
        ensures
            final(self).wf(),
            final(self).has_client(id),
            final(self).client(id) == (ClientView { nick: nick@, ..old(self).client(id) }),
            final(self).clients() == old(self).clients().insert(id, final(self).clients()[id]),
            final(self).nicks@ == old(self).nicks@.remove(fold(old(self).client(id).nick)).insert(
                fold(nick@),
                id,
            ),
            final(self).channels == old(self).channels,
            final(self).same_config(old(self)),
            final(self).rehash_requested == old(self).rehash_requested,
    {
        let ghost old_nick = self.client(id).nick;
        let ghost old_clients = self.clients();
        let ghost old_nicks = self.nicks@;
        let client = table_get_mut(&mut self.clients, id);
        let old_key = folded(client.nick.as_slice());
        client.nick = to_vec(nick);
        self.nicks.remove(old_key.as_slice());
        self.nicks.insert(folded(nick), id);
        proof {
            let new_clients = self.clients();
            let new_nicks = self.nicks@;
            assert(new_nicks == old_nicks.remove(fold(old_nick)).insert(fold(nick@), id));
            assert forall|other: usize| #[trigger] self.clients().dom().contains(other) implies client_ok(
                self.clients()[other]@,
            ) by {
                assert(old(self).clients().dom().contains(other));
            }
            assert(nicks_fit(new_clients, new_nicks)) by {
                assert forall|key: Seq<u8>| #[trigger]
                    new_nicks.dom().contains(key) implies new_clients.dom().contains(
                    new_nicks[key],
                ) && fold(new_clients[new_nicks[key]]@.nick) == key
                    && new_clients[new_nicks[key]]@.nick.len() > 0 by {
                    if key != fold(nick@) {
                        assert(old_nicks.dom().contains(key));
                        let owner = old_nicks[key];
                        if owner == id {
                            assert(fold(old_clients[id]@.nick) == key);
                        }
                    }
                }
                assert forall|other: usize| #[trigger]
                    new_clients.dom().contains(other) && new_clients[other]@.nick.len()
                        > 0 implies new_nicks.dom().contains(fold(new_clients[other]@.nick))
                    && new_nicks[fold(new_clients[other]@.nick)] == other by {
                    if other != id {
                        assert(old_clients.dom().contains(other));
                        let key = fold(old_clients[other]@.nick);
                        assert(old_nicks.dom().contains(key) && old_nicks[key] == other);
                        if key == fold(old_nick) {
                            if old_nick.len() > 0 {
                                assert(old_clients.dom().contains(id));
                                assert(old_nicks[fold(old_clients[id]@.nick)] == id);
                            } else {
                                assert(fold(old_nick).len() == 0);
                                assert(key.len() == old_clients[other]@.nick.len());
                            }
                        }
                    }
                }
            }
            assert(channels_fit(new_clients, self.channels@)) by {
                assert forall|i: int| 0 <= i < self.channels@.len() implies members_known(
                    new_clients,
                    (#[trigger] self.channels@[i]).chan@.members,
                ) by {
                    let members = self.channels@[i].chan@.members;
                    assert(members_known(old_clients, old(self).channels@[i].chan@.members));
                    assert forall|k: int|
                        0 <= k < members.len() implies new_clients.dom().contains(
                        (#[trigger] members[k]).id,
                    ) && new_clients[members[k].id]@.state.registered by {
                        assert(old_clients.dom().contains(members[k].id));
                    }
                }
            }
        }
    }

    /// A state is well formed after the channel at `at` was changed, where
    /// the changed channel is well formed, has a member, and has only
    /// registered clients as members.
    pub proof fn lemma_channel_changed(before: &Self, after: &Self, at: int)
        requires
            before.wf(),
            after.same_but_channels(before),
            0 <= at < before.channels@.len(),
            after.channels@.len() == before.channels@.len(),
            forall|i: int|
                0 <= i < before.channels@.len() && i != at ==> #[trigger] after.channels@[i]
                    == before.channels@[i],
            after.channels@[at].key@ == before.channels@[at].key@,
            after.channels@[at].chan.wf(),
            after.channels@[at].chan@.members.len() > 0,
            members_known(after.clients(), after.channels@[at].chan@.members),
        ensures
            after.wf(),
    {
        let old_keys = channel_keys(before.channels@);
        let new_keys = channel_keys(after.channels@);
        assert(new_keys =~= old_keys) by {
            assert forall|i: int| 0 <= i < old_keys.len() implies new_keys[i] == old_keys[i] by {
                if i != at {
                    assert(after.channels@[i] == before.channels@[i]);
                }
            }
        }
        assert forall|i: int| 0 <= i < after.channels@.len() implies (
        #[trigger] after.channels@[i]).chan.wf() && after.channels@[i].chan@.members.len() > 0
            && members_known(after.clients(), after.channels@[i].chan@.members) by {
            if i != at {
                assert(after.channels@[i] == before.channels@[i]);
                assert(before.channels@[i].chan.wf());
            }
        }
    }

    /// Makes the client `id` a member of the channel at `at`.
    pub fn add_to_channel(&mut self, at: usize, id: usize)
        requires
            old(self).wf(),
            at < old(self).channels@.len(),
            old(self).has_client(id),
            old(self).client(id).state.registered,
        ensures
            final(self).wf(),
            final(self).same_but_channels(old(self)),
            final(self).channels@.len() == old(self).channels@.len(),
            forall|i: int|
                0 <= i < old(self).channels@.len() && i != at ==> #[trigger] final(self).channels@[i] == old(self).channels@[i],
            final(self).channels@[at as int].key@ == old(self).channels@[at as int].key@,
            final(self).channels@[at as int].name@ == old(self).channels@[at as int].name@,
            final(self).channels@[at as int].chan@ == (ChannelView {
                members: with_member(old(self).channels@[at as int].chan@.members, id),
                ..old(self).channels@[at as int].chan@
            }),
    {
        let ghost before = *self;
        let ghost members = self.channels@[at as int].chan@.members;
        self.channels[at].chan.add_member(id);
        proof {
            lemma_with_member(members, id);
            lemma_member_index(members, id);
            let after = with_member(members, id);
            assert(members_known(before.clients(), members));
            assert forall|k: int| 0 <= k < after.len() implies self.clients().dom().contains(
                (#[trigger] after[k]).id,
            ) && self.clients()[after[k].id]@.state.registered by {
                if k < members.len() && !(is_member(members, id) && k == member_index(members, id)) {
                    assert(after[k] == members[k]);
                }
            }
            Self::lemma_channel_changed(&before, self, at as int);
        }
    }

    /// Makes a channel with the modes that the configuration gives to new
    /// channels, and with the client `id` as its creator and only member.
    pub fn create_channel(&mut self, name: &[u8], id: usize)
        requires
            old(self).wf(),
            !channel_keys(old(self).channels@).contains(fold(name@)),
            old(self).has_client(id),
            old(self).client(id).state.registered,
        ensures
            final(self).wf(),
            final(self).same_but_channels(old(self)),
            final(self).channels@.len() == old(self).channels@.len() + 1,
            forall|i: int|
                0 <= i < old(self).channels@.len() ==> #[trigger] final(self).channels@[i] == old(
                    self,
                ).channels@[i],
            final(self).channels@[old(self).channels@.len() as int].key@ == fold(name@),
            final(self).channels@[old(self).channels@.len() as int].name@ == name@,
            final(self).channels@[old(self).channels@.len() as int].chan@ == (ChannelView {
                members: with_member(Seq::<Member>::empty(), id),
                ..crate::channel::apply_all(
                    crate::channel::empty_channel(),
                    crate::modes::channel_changes(
                        old(self).default_chan_mode@,
                        0,
                        true,
                        Seq::<Seq<u8>>::empty(),
                        0,
                    ),
                )
            }),
    {
        let mut chan = Channel::new(self.default_chan_mode.as_slice());
        let ghost made = chan@;
        assert(made.members =~= Seq::<Member>::empty());
        chan.add_member(id);
        let ghost old_keys = channel_keys(self.channels@);
        self.channels.push(ChannelEntry { key: folded(name), name: to_vec(name), chan });
        proof {
            lemma_with_member(Seq::<Member>::empty(), id);
            let keys = channel_keys(self.channels@);
            assert(keys =~= old_keys.push(fold(name@)));
            assert forall|i: int, j: int| 0 <= i < j < keys.len() implies keys[i] != keys[j] by {
                if j == keys.len() - 1 {
                    assert(old_keys[i] == keys[i]);
                    assert(old_keys.contains(keys[i]));
                } else {
                    assert(old_keys[i] != old_keys[j]);
                }
            }
            let last = self.channels@.len() - 1;
            let members = self.channels@[last].chan@.members;
            assert(members =~= seq![
                Member {
                    id,
                    modes: crate::channel::MemberModes {
                        creator: true,
                        operator: true,
                        voice: false,
                    },
                },
            ]);
            assert forall|i: int| 0 <= i < self.channels@.len() implies (
            #[trigger] self.channels@[i]).chan.wf() && self.channels@[i].chan@.members.len() > 0
                && members_known(self.clients(), self.channels@[i].chan@.members) by {
                if i < last {
                    assert(self.channels@[i] == old(self).channels@[i]);
                    assert(old(self).channels@[i].chan.wf());
                }
            }
        }
    }

    /// Takes the client `id` out of the channel at `at`, and drops the
    /// channel if it is left without members.
    pub fn remove_from_channel(&mut self, at: usize, id: usize)
        requires
            old(self).wf(),
            at < old(self).channels@.len(),
        ensures
            final(self).wf(),
            final(self).same_but_channels(old(self)),
            without_member(old(self).channels@[at as int].chan@.members, id).len() == 0
                ==> final(self).channels@ == old(self).channels@.remove(at as int),
            without_member(old(self).channels@[at as int].chan@.members, id).len() > 0
                ==> final(self).channels@.len() == old(self).channels@.len() && (forall|i: int|
                0 <= i < old(self).channels@.len() && i != at ==> #[trigger] final(self).channels@[i] == old(self).channels@[i]) && final(self).channels@[at as int].key@
                == old(self).channels@[at as int].key@ && final(self).channels@[at as int].chan@
                == (ChannelView {
                members: without_member(old(self).channels@[at as int].chan@.members, id),
                ..old(self).channels@[at as int].chan@
            }),
    {
        let ghost before = *self;
        let ghost members = self.channels@[at as int].chan@.members;
        let ghost old_keys = channel_keys(self.channels@);
        self.channels[at].chan.remove_member(id);
        proof {
            lemma_without_member(members, id);
            lemma_members_known_without(before.clients(), members, id);
        }
        if self.channels[at].chan.members.len() == 0 {
            let _ = self.channels.remove(at);
            proof {
                let keys = channel_keys(self.channels@);
                assert(keys =~= old_keys.remove(at as int));
                assert forall|i: int, j: int| 0 <= i < j < keys.len() implies keys[i] != keys[j] by {
                    let a = if i < at { i } else { i + 1 };
                    let b = if j < at { j } else { j + 1 };
                    assert(old_keys[a] != old_keys[b]);
                }
                assert forall|i: int| 0 <= i < self.channels@.len() implies (
                #[trigger] self.channels@[i]).chan.wf() && self.channels@[i].chan@.members.len()
                    > 0 && members_known(self.clients(), self.channels@[i].chan@.members) by {
                    let a = if i < at { i } else { i + 1 };
                    assert(self.channels@[i] == before.channels@[a]);
                    assert(before.channels@[a].chan.wf());
                }
                assert(self.channels@ =~= before.channels@.remove(at as int));
            }
        } else {
            proof {
                Self::lemma_channel_changed(&before, self, at as int);
            }
        }
    }

    /// Applies one mode record to the channel at `at`; the nickname that
    /// the record may carry is looked up among the clients.
    pub fn apply_to_channel(&mut self, at: usize, change: &crate::modes::ChannelModeChange) -> (r:
        Result<bool, u16>)
        requires
            old(self).wf(),
            at < old(self).channels@.len(),
        ensures
            final(self).wf(),
            final(self).same_but_channels(old(self)),
            final(self).channels@.len() == old(self).channels@.len(),
            forall|i: int|
                0 <= i < old(self).channels@.len() && i != at ==> #[trigger] final(self).channels@[i] == old(self).channels@[i],
            final(self).channels@[at as int].key@ == old(self).channels@[at as int].key@,
            final(self).channels@[at as int].name@ == old(self).channels@[at as int].name@,
            (final(self).channels@[at as int].chan@, r) == crate::channel::apply_change(
                old(self).channels@[at as int].chan@,
                change@,
                crate::channel::named_target(
                    old(self).channels@[at as int].chan@,
                    change@,
                    &old(self).clients,
                ),
            ),
    {
        let ghost before = *self;
        let ghost ch = self.channels@[at as int].chan@;
        let r = self.channels[at].chan.apply_mode_change(change, &self.clients);
        proof {
            let target = crate::channel::named_target(ch, change@, &before.clients);
            crate::channel::lemma_apply_keeps_members(ch, change@, target);
            let after = self.channels@[at as int].chan@.members;
            assert forall|k: int| 0 <= k < after.len() implies self.clients().dom().contains(
                (#[trigger] after[k]).id,
            ) && self.clients()[after[k].id]@.state.registered by {
                assert(after[k].id == ch.members[k].id);
                assert(members_known(before.clients(), ch.members));
            }
            Self::lemma_channel_changed(&before, self, at as int);
        }
        r
    }

    /// Sets or clears the topic of the channel at `at`.
    pub fn set_topic(&mut self, at: usize, topic: Option<crate::channel::Topic>)
        requires
            old(self).wf(),
            at < old(self).channels@.len(),
        ensures
            final(self).wf(),
            final(self).same_but_channels(old(self)),
            final(self).channels@.len() == old(self).channels@.len(),
            forall|i: int|
                0 <= i < old(self).channels@.len() && i != at ==> #[trigger] final(self).channels@[i] == old(self).channels@[i],
            final(self).channels@[at as int].key@ == old(self).channels@[at as int].key@,
            final(self).channels@[at as int].name@ == old(self).channels@[at as int].name@,
            final(self).channels@[at as int].chan@ == (ChannelView {
                topic: match topic {
                    Some(t) => Some(t@),
                    None => None,
                },
                ..old(self).channels@[at as int].chan@
            }),
    {
        let ghost before = *self;
        self.channels[at].chan.topic = topic;
        proof {
            assert(members_known(before.clients(), before.channels@[at as int].chan@.members));
            Self::lemma_channel_changed(&before, self, at as int);
        }
    }

    /// Puts a nickname on the invitation list of the channel at `at`.
    pub fn invite_to_channel(&mut self, at: usize, nick: &[u8])
        requires
            old(self).wf(),
            at < old(self).channels@.len(),
        ensures
            final(self).wf(),
            final(self).same_but_channels(old(self)),
            final(self).channels@.len() == old(self).channels@.len(),
            forall|i: int|
                0 <= i < old(self).channels@.len() && i != at ==> #[trigger] final(self).channels@[i] == old(self).channels@[i],
            final(self).channels@[at as int].key@ == old(self).channels@[at as int].key@,
            final(self).channels@[at as int].name@ == old(self).channels@[at as int].name@,
            final(self).channels@[at as int].chan@ == (ChannelView {
                invitation_mask: crate::text::list_insert(
                    old(self).channels@[at as int].chan@.invitation_mask,
                    nick@,
                ),
                ..old(self).channels@[at as int].chan@
            }),
    {
        let ghost before = *self;
        let _ = crate::text::list_add(&mut self.channels[at].chan.invitation_mask, nick);
        proof {
            assert(members_known(before.clients(), before.channels@[at as int].chan@.members));
            Self::lemma_channel_changed(&before, self, at as int);
        }
    }

    /// Takes the client `id` out of every channel, and drops the channels
    /// that are left without members.
    pub fn leave_all(&mut self, id: usize)
        requires
            old(self).wf(),
        ensures
            final(self).wf(),
            final(self).same_but_channels(old(self)),
            entry_views(final(self).channels@) == pruned(
                entry_views(old(self).channels@),
                id,
                old(self).channels@.len() as int,
            ),
            forall|i: int|
                0 <= i < final(self).channels@.len() ==> !is_member(
                    (#[trigger] final(self).channels@[i]).chan@.members,
                    id,
                ),
    {
        let ghost all = entry_views(self.channels@);
        let ghost clients = self.clients();
        let ghost old_keys = channel_keys(self.channels@);
        let mut rest: Vec<ChannelEntry> = Vec::new();
        std::mem::swap(&mut rest, &mut self.channels);
        let mut kept: Vec<ChannelEntry> = Vec::new();
        let ghost mut source: Seq<int> = Seq::empty();
        let ghost mut done: int = 0;
        let ghost total = all.len() as int;
        assert(entry_views(rest@) =~= all.subrange(0, total));
        while rest.len() > 0
            invariant
                total == all.len(),
                0 <= done <= total,
                rest@.len() == total - done,
                entry_views(rest@) == all.subrange(done, total),
                forall|i: int|
                    0 <= i < rest@.len() ==> (#[trigger] rest@[i]).chan.wf() && members_known(
                        clients,
                        rest@[i].chan@.members,
                    ),
                entry_views(kept@) == pruned(all, id, done),
                source.len() == kept@.len(),
                forall|j: int| 0 <= j < source.len() ==> 0 <= #[trigger] source[j] < done,
                forall|j: int, k: int| 0 <= j < k < source.len() ==> source[j] < source[k],
                forall|j: int| 0 <= j < kept@.len() ==> (#[trigger] kept@[j]).key@ == all[source[j]].key,
                forall|j: int|
                    0 <= j < kept@.len() ==> (#[trigger] kept@[j]).chan.wf() && kept@[j].chan@.members.len()
                        > 0 && members_known(clients, kept@[j].chan@.members) && !is_member(
                        kept@[j].chan@.members,
                        id,
                    ),
            decreases rest@.len(),
        {
            let ghost before_rest = entry_views(rest@);
            let ghost before_kept = entry_views(kept@);
            let ghost old_rest = rest@;
            let mut entry = rest.remove(0);
            assert(entry@ == all[done]) by {
                assert(before_rest[0] == all[done]);
            }
            assert forall|i: int| 0 <= i < rest@.len() implies #[trigger] rest@[i] == old_rest[i + 1] by {}
            assert forall|i: int| 0 <= i < rest@.len() implies #[trigger] entry_views(rest@)[i]
                == all[done + 1 + i] by {
                assert(before_rest[i + 1] == all[done + 1 + i]);
            }
            let ghost members = entry.chan@.members;
            entry.chan.remove_member(id);
            proof {
                lemma_without_member(members, id);
                lemma_members_known_without(clients, members, id);
                assert(entry_views(rest@) =~= all.subrange(done + 1, total));
            }
            if entry.chan.members.len() > 0 {
                kept.push(entry);
                proof {
                    assert(entry_views(kept@) =~= before_kept.push(
                        EntryView {
                            key: all[done].key,
                            chan: ChannelView {
                                members: without_member(members, id),
                                ..all[done].chan
                            },
                        },
                    ));
                    source = source.push(done);
                }
            }
            proof {
                done = done + 1;
            }
        }
        self.channels = kept;
        proof {
            let keys = channel_keys(self.channels@);
            assert forall|j: int, k: int| 0 <= j < k < keys.len() implies keys[j] != keys[k] by {
                assert(self.channels@[j].key@ == all[source[j]].key);
                assert(self.channels@[k].key@ == all[source[k]].key);
                assert(old_keys[source[j]] != old_keys[source[k]]);
            }
        }
    }

    /// Takes the client `id` out of the state: out of every channel, out of
    /// the index of nicknames and out of the clients.  The channels that
    /// are left without members are dropped.  The other clients stay as
    /// they are.
    pub fn take_client(&mut self, id: usize) -> (client: Client)
        requires
            old(self).wf(),
            old(self).has_client(id),
        ensures
            final(self).wf(),
            client == old(self).clients()[id],
            final(self).clients() == old(self).clients().remove(id),
            final(self).nicks@ == old(self).nicks@.remove(fold(client@.nick)),
            entry_views(final(self).channels@) == pruned(
                entry_views(old(self).channels@),
                id,
                old(self).channels@.len() as int,
            ),
            final(self).same_config(old(self)),
            final(self).rehash_requested == old(self).rehash_requested,
    {
        self.leave_all(id);
        let ghost old_clients = self.clients();
        let ghost old_nicks = self.nicks@;
        let client = table_remove(&mut self.clients, id);
        let key = folded(client.nick.as_slice());
        self.nicks.remove(key.as_slice());
        proof {
            let new_clients = self.clients();
            let new_nicks = self.nicks@;
            assert forall|other: usize| #[trigger] self.clients().dom().contains(other) implies client_ok(
                self.clients()[other]@,
            ) by {
                assert(old(self).clients().dom().contains(other));
            }
            assert(nicks_fit(new_clients, new_nicks)) by {
                assert forall|k: Seq<u8>| #[trigger]
                    new_nicks.dom().contains(k) implies new_clients.dom().contains(new_nicks[k])
                    && fold(new_clients[new_nicks[k]]@.nick) == k && new_clients[new_nicks[k]]@.nick.len()
                    > 0 by {
                    assert(old_nicks.dom().contains(k));
                    if old_nicks[k] == id {
                        assert(fold(old_clients[id]@.nick) == k);
                    }
                }
                assert forall|other: usize| #[trigger]
                    new_clients.dom().contains(other) && new_clients[other]@.nick.len()
                        > 0 implies new_nicks.dom().contains(fold(new_clients[other]@.nick))
                    && new_nicks[fold(new_clients[other]@.nick)] == other by {
                    assert(old_clients.dom().contains(other));
                    let k = fold(old_clients[other]@.nick);
                    assert(old_nicks.dom().contains(k) && old_nicks[k] == other);
                    if k == key@ {
                        if client@.nick.len() > 0 {
                            assert(old_nicks[fold(old_clients[id]@.nick)] == id);
                        } else {
                            assert(k.len() == old_clients[other]@.nick.len());
                        }
                    }
                }
            }
            assert(channels_fit(new_clients, self.channels@)) by {
                assert forall|i: int| 0 <= i < self.channels@.len() implies members_known(
                    new_clients,
                    (#[trigger] self.channels@[i]).chan@.members,
                ) by {
                    let members = self.channels@[i].chan@.members;
                    assert(members_known(old_clients, members));
                    lemma_member_index(members, id);
                    assert forall|k: int|
                        0 <= k < members.len() implies new_clients.dom().contains(
                        (#[trigger] members[k]).id,
                    ) && new_clients[members[k].id]@.state.registered by {
                        assert(old_clients.dom().contains(members[k].id));
                        assert(members[k].id != id);
                    }
                }
            }
        }
        client
    }

    /// Removes the client `id` if it has not registered: the collaborator
    /// that watches the time of login calls this when the time is up.
    pub fn remove_if_unregistered(&mut self, id: usize) -> (removed: bool)
        requires
            old(self).wf(),
        ensures
            final(self).wf(),
            removed == (old(self).has_client(id) && !old(self).client(id).state.registered),
            removed ==> final(self).clients() == old(self).clients().remove(id)
                && final(self).nicks@ == old(self).nicks@.remove(
                fold(old(self).client(id).nick),
            ),
            !removed ==> final(self).clients() == old(self).clients() && final(self).nicks
                == old(self).nicks,
            final(self).channels == old(self).channels,
            final(self).same_config(old(self)),
    {
        let unregistered = match table_get(&self.clients, id) {
            Some(client) => !client.is_registered(),
            None => false,
        };
        if !unregistered {
            return false;
        }
        let ghost old_clients = self.clients();
        let ghost old_nicks = self.nicks@;
        let client = table_remove(&mut self.clients, id);
        let key = folded(client.nick.as_slice());
        self.nicks.remove(key.as_slice());
        proof {
            let new_clients = self.clients();
            let new_nicks = self.nicks@;
            assert forall|other: usize| #[trigger] self.clients().dom().contains(other) implies client_ok(
                self.clients()[other]@,
            ) by {
                assert(old(self).clients().dom().contains(other));
            }
            assert(nicks_fit(new_clients, new_nicks)) by {
                assert forall|k: Seq<u8>| #[trigger]
                    new_nicks.dom().contains(k) implies new_clients.dom().contains(new_nicks[k])
                    && fold(new_clients[new_nicks[k]]@.nick) == k && new_clients[new_nicks[k]]@.nick.len()
                    > 0 by {
                    assert(old_nicks.dom().contains(k));
                    if old_nicks[k] == id {
                        assert(fold(old_clients[id]@.nick) == k);
                    }
                }
                assert forall|other: usize| #[trigger]
                    new_clients.dom().contains(other) && new_clients[other]@.nick.len()
                        > 0 implies new_nicks.dom().contains(fold(new_clients[other]@.nick))
                    && new_nicks[fold(new_clients[other]@.nick)] == other by {
                    assert(old_clients.dom().contains(other));
                    let k = fold(old_clients[other]@.nick);
                    assert(old_nicks.dom().contains(k) && old_nicks[k] == other);
                    if k == key@ {
                        if client@.nick.len() > 0 {
                            assert(old_nicks[fold(old_clients[id]@.nick)] == id);
                        } else {
                            assert(k.len() == old_clients[other]@.nick.len());
                        }
                    }
                }
            }
            assert(channels_fit(new_clients, self.channels@)) by {
                assert forall|i: int| 0 <= i < self.channels@.len() implies members_known(
                    new_clients,
                    (#[trigger] self.channels@[i]).chan@.members,
                ) by {
                    let members = self.channels@[i].chan@.members;
                    assert(members_known(old_clients, members));
                    assert forall|k: int|
                        0 <= k < members.len() implies new_clients.dom().contains(
                        (#[trigger] members[k]).id,
                    ) && new_clients[members[k].id]@.state.registered by {
                        assert(old_clients.dom().contains(members[k].id));
                        assert(old_clients[members[k].id]@.state.registered);
                    }
                }
            }
        }
        true
    }
}

} // verus!
