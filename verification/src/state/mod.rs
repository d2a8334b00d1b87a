//! The state of the network and the engine that applies commands to it.
//!
//! `StateInner` holds the clients, the index of their nicknames and the
//! channels.  Every operation takes a well-formed state to a well-formed
//! state (`StateInner::wf`), and puts the lines that are to be sent, each
//! with the client that it goes to, at the end of a list of deliveries.

use vstd::prelude::*;
use vstd::string::StringSliceAdditionalSpecFns;
use crate::auth::Provider;

use crate::channel::{Channel, Member};
use crate::client::{Client, ClientView};
use crate::message::Command;
use crate::nicks::NickIndex;
use crate::table::held;
use crate::text::{distinct, fold, is_digit, AMPERSAND, BELL, COLON, COMMA, HASH, MINUS, SPACE};

pub mod base;
pub mod send;
pub mod query;
pub mod channels;
pub mod mode;
pub mod messages;
pub mod rfc2812;
pub mod ircv3;
pub mod dispatch;
pub mod route;

verus! {

/// The configuration of a server.
pub struct Config {
    /// The domain of the server, the prefix of its replies.
    pub domain: Vec<u8>,
    pub org_name: Vec<u8>,
    pub org_location: Vec<u8>,
    pub org_mail: Vec<u8>,
    /// The text of the message of the day; empty where there is none.
    pub motd_file: Vec<u8>,
    /// The password that clients must give, where there is one.
    pub password: Option<Vec<u8>>,
    /// The modes of a new channel.
    pub default_chan_mode: Vec<u8>,
    /// The names and passwords that make a client an operator.
    pub opers: Vec<(Vec<u8>, Vec<u8>)>,
    pub awaylen: usize,
    pub channellen: usize,
    pub kicklen: usize,
    pub namelen: usize,
    pub nicklen: usize,
    pub topiclen: usize,
    pub userlen: usize,
    /// The time that a client has to register, in milliseconds.
    pub login_timeout: u64,
}

/// What the surroundings of the server give it for one command.
pub struct Env {
    /// The time in seconds.
    pub now: u64,
    /// The time as it is written in tags and replies.
    pub time: Vec<u8>,
    /// A fresh identifier, for a message or a batch.
    pub msgid: Vec<u8>,
}

/// Bytes to be sent to a client.
pub struct Delivery {
    pub to: usize,
    pub data: Vec<u8>,
}

pub struct DeliveryView {
    pub to: usize,
    pub data: Seq<u8>,
}

impl View for Delivery {
    type V = DeliveryView;

    open spec fn view(&self) -> DeliveryView {
        DeliveryView { to: self.to, data: self.data@ }
    }
}

/// What a list of deliveries holds.
pub open spec fn delivery_views(out: Seq<Delivery>) -> Seq<DeliveryView> {
    Seq::new(out.len(), |i: int| out[i]@)
}

/// A channel under the folded form of its name.
pub struct ChannelEntry {
    pub key: Vec<u8>,
    /// The name as it was written when the channel was made.
    pub name: Vec<u8>,
    pub chan: Channel,
}

/// What comes with every command: the client that sent it, the tags that
/// it carried, and what the surroundings of the server give.
pub struct CommandContext<'a> {
    pub id: usize,
    pub client_tags: &'a [u8],
    pub env: &'a Env,
}

/// The keys of a list of channels.
pub open spec fn channel_keys(channels: Seq<ChannelEntry>) -> Seq<Seq<u8>> {
    Seq::new(channels.len(), |i: int| channels[i].key@)
}

/// The state of the network.
pub struct StateInner<P: Provider> {
    pub domain: Vec<u8>,
    pub org_name: Vec<u8>,
    pub org_location: Vec<u8>,
    pub org_mail: Vec<u8>,
    /// The clients by their identifiers.
    pub clients: slab::Slab<Client>,
    /// The nicknames in use.
    pub nicks: NickIndex,
    /// The channels, in the order in which they were made.
    pub channels: Vec<ChannelEntry>,
    /// When the server was started, as it is told to clients.
    pub created_at: Vec<u8>,
    pub motd: Option<Vec<u8>>,
    pub password: Option<Vec<u8>>,
    pub default_chan_mode: Vec<u8>,
    pub opers: Vec<(Vec<u8>, Vec<u8>)>,
    pub awaylen: usize,
    pub channellen: usize,
    pub kicklen: usize,
    pub namelen: usize,
    pub nicklen: usize,
    pub topiclen: usize,
    pub userlen: usize,
    pub login_timeout: u64,
    pub auth_provider: P,
    /// Whether an operator has asked for the configuration to be read
    /// again since this was last cleared.
    pub rehash_requested: bool,
}

/// What holds of every client: a `NICK` of it was accepted only with a
/// nickname, a `USER` only with a user name and a real name; and it is
/// registered only with both accepted and no negotiation of capabilities
/// open.
pub open spec fn client_ok(c: ClientView) -> bool {
    &&& c.state.nick ==> c.nick.len() > 0
    &&& c.state.user ==> c.user.len() > 0 && c.real.len() > 0
    &&& c.state.registered ==> c.state.nick && c.state.user && !c.state.cap_pending
}

/// Whether every client is as `client_ok` says.
pub open spec fn clients_ok(clients: Map<usize, Client>) -> bool {
    forall|id: usize| #[trigger] clients.dom().contains(id) ==> client_ok(clients[id]@)
}

/// Whether the index of nicknames fits the clients: every entry names a
/// client under the folded form of its nickname, and every client that
/// has a nickname is listed under its folded form.
pub open spec fn nicks_fit(clients: Map<usize, Client>, nicks: Map<Seq<u8>, usize>) -> bool {
    &&& forall|key: Seq<u8>| #[trigger]
        nicks.dom().contains(key) ==> clients.dom().contains(nicks[key]) && fold(
            clients[nicks[key]]@.nick,
        ) == key && clients[nicks[key]]@.nick.len() > 0
    &&& forall|id: usize| #[trigger]
        clients.dom().contains(id) && clients[id]@.nick.len() > 0 ==> nicks.dom().contains(
            fold(clients[id]@.nick),
        ) && nicks[fold(clients[id]@.nick)] == id
}

/// Whether every member is a registered client.
pub open spec fn members_known(clients: Map<usize, Client>, members: Seq<Member>) -> bool {
    forall|i: int|
        0 <= i < members.len() ==> clients.dom().contains((#[trigger] members[i]).id)
            && clients[members[i].id]@.state.registered
}

/// Whether the channels fit the clients: no channel is listed twice, every
/// channel is well formed and has a member, and every member is a
/// registered client.
pub open spec fn channels_fit(clients: Map<usize, Client>, channels: Seq<ChannelEntry>) -> bool {
    &&& distinct(channel_keys(channels))
    &&& forall|i: int|
        0 <= i < channels.len() ==> (#[trigger] channels[i]).chan.wf() && channels[i].chan@.members.len()
            > 0 && members_known(clients, channels[i].chan@.members)
}

impl<P: Provider> StateInner<P> {
    /// The clients by their identifiers.
    pub open spec fn clients(&self) -> Map<usize, Client> {
        held(self.clients)
    }

    /// Whether `id` is a client.
    pub open spec fn has_client(&self, id: usize) -> bool {
        held(self.clients).dom().contains(id)
    }

    /// What the client `id` holds.
    pub open spec fn client(&self, id: usize) -> ClientView {
        held(self.clients)[id]@
    }

    /// The state is well formed: the index of nicknames and the channels
    /// fit the clients, and every client is as `client_ok` says.
    pub open spec fn wf(&self) -> bool {
        &&& self.nicks.wf()
        &&& nicks_fit(self.clients(), self.nicks@)
        &&& channels_fit(self.clients(), self.channels@)
        &&& clients_ok(self.clients())
    }

    /// Whether the configuration is that of `other`.
    pub open spec fn same_config(&self, other: &Self) -> bool {
        &&& self.domain == other.domain
        &&& self.org_name == other.org_name
        &&& self.org_location == other.org_location
        &&& self.org_mail == other.org_mail
        &&& self.created_at == other.created_at
        &&& self.motd == other.motd
        &&& self.password == other.password
        &&& self.default_chan_mode == other.default_chan_mode
        &&& self.opers == other.opers
        &&& self.awaylen == other.awaylen
        &&& self.channellen == other.channellen
        &&& self.kicklen == other.kicklen
        &&& self.namelen == other.namelen
        &&& self.nicklen == other.nicklen
        &&& self.topiclen == other.topiclen
        &&& self.userlen == other.userlen
        &&& self.login_timeout == other.login_timeout
        &&& self.auth_provider == other.auth_provider
    }

    /// Whether nothing but the clients differs from `other`.
    pub open spec fn same_but_clients(&self, other: &Self) -> bool {
        &&& self.same_config(other)
        &&& self.nicks == other.nicks
        &&& self.channels == other.channels
        &&& self.rehash_requested == other.rehash_requested
    }

    /// Whether nothing but the channels differs from `other`.
    pub open spec fn same_but_channels(&self, other: &Self) -> bool {
        &&& self.same_config(other)
        &&& self.nicks == other.nicks
        &&& self.clients == other.clients
        &&& self.rehash_requested == other.rehash_requested
    }
}

/// The bytes that a nickname is made of: digits, letters, and
/// ``[ ] \ ` _ ^ { | }``.
pub open spec fn is_nick_byte(c: u8) -> bool {
    is_digit(c) || (0x61 <= c <= 0x7a) || (0x41 <= c <= 0x5a) || (0x5b <= c <= 0x60) || (0x7b <= c
        <= 0x7d)
}

/// Whether `s` can be a nickname: it is not empty and not longer than
/// `max_len`, is made of the bytes of nicknames, and starts with neither
/// a digit nor `-`.
pub open spec fn valid_nickname(s: Seq<u8>, max_len: int) -> bool {
    &&& 0 < s.len() <= max_len
    &&& forall|i: int| 0 <= i < s.len() ==> is_nick_byte(#[trigger] s[i])
    &&& s[0] != MINUS
    &&& !is_digit(s[0])
}

/// The bytes that the name of a channel does not hold.
pub open spec fn breaks_channel_name(c: u8) -> bool {
    c == SPACE || c == COMMA || c == BELL || c == COLON
}

/// Whether `s` can be the name of a channel: it is not empty and not
/// longer than `max_len`, starts with `#` or `&`, and holds no space,
/// comma, colon or BEL.
pub open spec fn valid_channel_name(s: Seq<u8>, max_len: int) -> bool {
    &&& 0 < s.len() <= max_len
    &&& (s[0] == HASH || s[0] == AMPERSAND)
    &&& forall|i: int| 0 <= i < s.len() ==> !breaks_channel_name(#[trigger] s[i])
}

/// Whether a byte string can be the name of a channel.
pub fn channel_name_ok(s: &[u8], max_len: usize) -> (ok: bool)
    ensures
        ok == valid_channel_name(s@, max_len as int),
{
    if s.len() == 0 || s.len() > max_len {
        return false;
    }
    if s[0] != HASH && s[0] != AMPERSAND {
        return false;
    }
    let mut i: usize = 0;
    while i < s.len()
        invariant
            i <= s.len(),
            forall|j: int| 0 <= j < i ==> !breaks_channel_name(#[trigger] s@[j]),
        decreases s.len() - i,
    {
        let c = s[i];
        if c == SPACE || c == COMMA || c == BELL || c == COLON {
            assert(breaks_channel_name(s@[i as int]));
            return false;
        }
        i += 1;
    }
    true
}

/// Whether a byte string can be a nickname.
pub fn nickname_ok(s: &[u8], max_len: usize) -> (ok: bool)
    ensures
        ok == valid_nickname(s@, max_len as int),
{
    if s.len() == 0 || s.len() > max_len {
        return false;
    }
    let mut i: usize = 0;
    while i < s.len()
        invariant
            i <= s.len(),
            forall|j: int| 0 <= j < i ==> is_nick_byte(#[trigger] s@[j]),
        decreases s.len() - i,
    {
        let c = s[i];
        let ok = (0x30 <= c && c <= 0x39) || (0x61 <= c && c <= 0x7a) || (0x41 <= c && c <= 0x5a)
            || (0x5b <= c && c <= 0x60) || (0x7b <= c && c <= 0x7d);
        if !ok {
            assert(!is_nick_byte(s@[i as int]));
            return false;
        }
        i += 1;
    }
    s[0] != MINUS && !(0x30 <= s[0] && s[0] <= 0x39)
}

/// Whether a string is accepted as the name of a channel.
pub fn is_valid_channel_name(s: &str, max_len: usize) -> (ok: bool)
    ensures
        ok == valid_channel_name(s.spec_bytes(), max_len as int),
{
    channel_name_ok(s.as_bytes(), max_len)
}

/// Whether a string is accepted as a nickname.
pub fn is_valid_nickname(s: &str, max_len: usize) -> (ok: bool)
    ensures
        ok == valid_nickname(s.spec_bytes(), max_len as int),
{
    nickname_ok(s.as_bytes(), max_len)
}

/// The points that a command costs.
pub open spec fn points(command: Command) -> u32 {
    match command {
        Command::Admin => 1,
        Command::Authenticate => 6,
        Command::Away => 4,
        Command::Cap => 1,
        Command::Info => 2,
        Command::Invite => 4,
        Command::Join => 4,
        Command::Kick => 2,
        Command::Kill => 2,
        Command::List => 6,
        Command::Lusers => 2,
        Command::Mode => 2,
        Command::Motd => 2,
        Command::Names => 2,
        Command::Nick => 4,
        Command::Notice => 4,
        Command::Oper => 6,
        Command::Part => 4,
        Command::Pass => 2,
        Command::Ping => 1,
        Command::Pong => 1,
        Command::PrivMsg => 4,
        Command::Quit => 1,
        Command::Rehash => 1,
        Command::SetName => 4,
        Command::TagMsg => 4,
        Command::Time => 2,
        Command::Topic => 3,
        Command::User => 1,
        Command::Version => 1,
        Command::Who => 3,
        Command::Whois => 3,
        Command::Reply(_) => 1,
    }
}

/// The points that a command costs.
pub fn points_of(command: Command) -> (p: u32)
    ensures
        p == points(command),
        1 <= p <= 6,
{
    match command {
        Command::Admin => 1,
        Command::Authenticate => 6,
        Command::Away => 4,
        Command::Cap => 1,
        Command::Info => 2,
        Command::Invite => 4,
        Command::Join => 4,
        Command::Kick => 2,
        Command::Kill => 2,
        Command::List => 6,
        Command::Lusers => 2,
        Command::Mode => 2,
        Command::Motd => 2,
        Command::Names => 2,
        Command::Nick => 4,
        Command::Notice => 4,
        Command::Oper => 6,
        Command::Part => 4,
        Command::Pass => 2,
        Command::Ping => 1,
        Command::Pong => 1,
        Command::PrivMsg => 4,
        Command::Quit => 1,
        Command::Rehash => 1,
        Command::SetName => 4,
        Command::TagMsg => 4,
        Command::Time => 2,
        Command::Topic => 3,
        Command::User => 1,
        Command::Version => 1,
        Command::Who => 3,
        Command::Whois => 3,
        Command::Reply(_) => 1,
    }
}

} // verus!
