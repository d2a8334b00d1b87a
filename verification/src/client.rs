//! Clients: what the server knows of one connection.

use vstd::prelude::*;
use vstd::string::StringSliceAdditionalSpecFns;
use crate::codec;
use crate::message::{skip_spaces, Command};
use crate::text::{append, append_str, eq_str, find, position, slice, to_vec, AT, BANG, MINUS, PLUS, SPACE, STAR, TILDE};

verus! {

/// The most bytes of one `AUTHENTICATE` payload; a shorter one ends the
/// response of the client.
pub const AUTHENTICATE_CHUNK_LEN: usize = 400;

/// The most bytes of a whole response, over all its payloads.
pub const AUTHENTICATE_WHOLE_LEN: usize = 1024;

/// The capabilities that the server offers.
#[derive(Clone, Copy, Debug, PartialEq, Eq, Structural)]
pub enum Cap {
    AccountNotify,
    AwayNotify,
    Batch,
    CapNotify,
    EchoMessage,
    InviteNotify,
    LabeledResponse,
    MessageTags,
    MultiPrefix,
    Sasl,
    ServerTime,
    SetName,
    UserhostInNames,
}

/// The name of a capability.
pub open spec fn cap_name(cap: Cap) -> Seq<u8> {
    match cap {
        Cap::AccountNotify => "account-notify".spec_bytes(),
        Cap::AwayNotify => "away-notify".spec_bytes(),
        Cap::Batch => "batch".spec_bytes(),
        Cap::CapNotify => "cap-notify".spec_bytes(),
        Cap::EchoMessage => "echo-message".spec_bytes(),
        Cap::InviteNotify => "invite-notify".spec_bytes(),
        Cap::LabeledResponse => "labeled-response".spec_bytes(),
        Cap::MessageTags => "message-tags".spec_bytes(),
        Cap::MultiPrefix => "multi-prefix".spec_bytes(),
        Cap::Sasl => "sasl".spec_bytes(),
        Cap::ServerTime => "server-time".spec_bytes(),
        Cap::SetName => "setname".spec_bytes(),
        Cap::UserhostInNames => "userhost-in-names".spec_bytes(),
    }
}

/// The capability that a word names: the first in the list whose name it
/// is, letter for letter.
pub open spec fn cap_of(word: Seq<u8>) -> Option<Cap> {
    if word == cap_name(Cap::AccountNotify) {
        Some(Cap::AccountNotify)
    } else if word == cap_name(Cap::AwayNotify) {
        Some(Cap::AwayNotify)
    } else if word == cap_name(Cap::Batch) {
        Some(Cap::Batch)
    } else if word == cap_name(Cap::CapNotify) {
        Some(Cap::CapNotify)
    } else if word == cap_name(Cap::EchoMessage) {
        Some(Cap::EchoMessage)
    } else if word == cap_name(Cap::InviteNotify) {
        Some(Cap::InviteNotify)
    } else if word == cap_name(Cap::LabeledResponse) {
        Some(Cap::LabeledResponse)
    } else if word == cap_name(Cap::MessageTags) {
        Some(Cap::MessageTags)
    } else if word == cap_name(Cap::MultiPrefix) {
        Some(Cap::MultiPrefix)
    } else if word == cap_name(Cap::Sasl) {
        Some(Cap::Sasl)
    } else if word == cap_name(Cap::ServerTime) {
        Some(Cap::ServerTime)
    } else if word == cap_name(Cap::SetName) {
        Some(Cap::SetName)
    } else if word == cap_name(Cap::UserhostInNames) {
        Some(Cap::UserhostInNames)
    } else {
        None
    }
}

/// Reads the name of a capability.
pub fn parse_cap(word: &[u8]) -> (r: Option<Cap>)
    ensures
        r == cap_of(word@),
{
    if eq_str(word, "account-notify") {
        Some(Cap::AccountNotify)
    } else if eq_str(word, "away-notify") {
        Some(Cap::AwayNotify)
    } else if eq_str(word, "batch") {
        Some(Cap::Batch)
    } else if eq_str(word, "cap-notify") {
        Some(Cap::CapNotify)
    } else if eq_str(word, "echo-message") {
        Some(Cap::EchoMessage)
    } else if eq_str(word, "invite-notify") {
        Some(Cap::InviteNotify)
    } else if eq_str(word, "labeled-response") {
        Some(Cap::LabeledResponse)
    } else if eq_str(word, "message-tags") {
        Some(Cap::MessageTags)
    } else if eq_str(word, "multi-prefix") {
        Some(Cap::MultiPrefix)
    } else if eq_str(word, "sasl") {
        Some(Cap::Sasl)
    } else if eq_str(word, "server-time") {
        Some(Cap::ServerTime)
    } else if eq_str(word, "setname") {
        Some(Cap::SetName)
    } else if eq_str(word, "userhost-in-names") {
        Some(Cap::UserhostInNames)
    } else {
        None
    }
}

/// Appends the name of a capability to `dst`.
pub fn write_cap(cap: Cap, dst: &mut Vec<u8>)
    ensures
        final(dst)@ == old(dst)@ + cap_name(cap),
{
    match cap {
        Cap::AccountNotify => append_str(dst, "account-notify"),
        Cap::AwayNotify => append_str(dst, "away-notify"),
        Cap::Batch => append_str(dst, "batch"),
        Cap::CapNotify => append_str(dst, "cap-notify"),
        Cap::EchoMessage => append_str(dst, "echo-message"),
        Cap::InviteNotify => append_str(dst, "invite-notify"),
        Cap::LabeledResponse => append_str(dst, "labeled-response"),
        Cap::MessageTags => append_str(dst, "message-tags"),
        Cap::MultiPrefix => append_str(dst, "multi-prefix"),
        Cap::Sasl => append_str(dst, "sasl"),
        Cap::ServerTime => append_str(dst, "server-time"),
        Cap::SetName => append_str(dst, "setname"),
        Cap::UserhostInNames => append_str(dst, "userhost-in-names"),
    }
}

/// The capabilities that a client has asked for and got.
#[derive(Clone, Copy, Debug, PartialEq, Eq, Structural)]
pub struct Capabilities {
    /// Whether the client asked for the list in the form of version 302.
    pub v302: bool,
    pub account_notify: bool,
    pub away_notify: bool,
    pub batch: bool,
    pub cap_notify: bool,
    pub echo_message: bool,
    pub invite_notify: bool,
    pub labeled_response: bool,
    pub message_tags: bool,
    pub multi_prefix: bool,
    pub sasl: bool,
    pub server_time: bool,
    pub setname: bool,
    pub userhost_in_names: bool,
}

/// Capabilities with the note of whether the client asks in the form of
/// version 302.
pub open spec fn with_version(caps: Capabilities, v302: bool) -> Capabilities {
    Capabilities { v302, ..caps }
}

/// One request of a `CAP REQ`: a capability, to be switched on or off.
pub struct CapRequest {
    pub word: Seq<u8>,
    pub on: bool,
}

/// The request that one word of a `CAP REQ` makes: a `-` before the name
/// switches the capability off.
pub open spec fn cap_request(word: Seq<u8>) -> CapRequest {
    if word.len() > 0 && word[0] == MINUS {
        CapRequest { word: word.subrange(1, word.len() as int), on: false }
    } else {
        CapRequest { word, on: true }
    }
}

/// The requests that stand in `s` from `i` on, parted by spaces.
pub open spec fn cap_requests(s: Seq<u8>, i: int) -> Seq<CapRequest>
    decreases s.len() - i,
{
    let start = skip_spaces(s, i);
    if i < 0 || start < i || start >= s.len() {
        Seq::<CapRequest>::empty()
    } else {
        let end = position(s, start, SPACE);
        if start < end <= s.len() {
            seq![cap_request(s.subrange(start, end))] + cap_requests(s, end)
        } else {
            Seq::<CapRequest>::empty()
        }
    }
}

/// Whether every request names a capability that the server offers.
pub open spec fn all_supported(requests: Seq<CapRequest>) -> bool {
    forall|i: int| 0 <= i < requests.len() ==> cap_of((#[trigger] requests[i]).word).is_some()
}

impl Capabilities {
    /// No capability.
    pub open spec fn none() -> Capabilities {
        Capabilities {
            v302: false,
            account_notify: false,
            away_notify: false,
            batch: false,
            cap_notify: false,
            echo_message: false,
            invite_notify: false,
            labeled_response: false,
            message_tags: false,
            multi_prefix: false,
            sasl: false,
            server_time: false,
            setname: false,
            userhost_in_names: false,
        }
    }

    /// Whether the client has the capability.
    pub open spec fn has(self, cap: Cap) -> bool {
        match cap {
            Cap::AccountNotify => self.account_notify,
            Cap::AwayNotify => self.away_notify,
            Cap::Batch => self.batch,
            Cap::CapNotify => self.cap_notify,
            Cap::EchoMessage => self.echo_message,
            Cap::InviteNotify => self.invite_notify,
            Cap::LabeledResponse => self.labeled_response,
            Cap::MessageTags => self.message_tags,
            Cap::MultiPrefix => self.multi_prefix,
            Cap::Sasl => self.sasl,
            Cap::ServerTime => self.server_time,
            Cap::SetName => self.setname,
            Cap::UserhostInNames => self.userhost_in_names,
        }
    }

    /// These capabilities with one switched on or off.
    pub open spec fn with(self, cap: Cap, on: bool) -> Capabilities {
        Capabilities {
            v302: self.v302,
            account_notify: switched(cap, Cap::AccountNotify, on, self.account_notify),
            away_notify: switched(cap, Cap::AwayNotify, on, self.away_notify),
            batch: switched(cap, Cap::Batch, on, self.batch),
            cap_notify: switched(cap, Cap::CapNotify, on, self.cap_notify),
            echo_message: switched(cap, Cap::EchoMessage, on, self.echo_message),
            invite_notify: switched(cap, Cap::InviteNotify, on, self.invite_notify),
            labeled_response: switched(cap, Cap::LabeledResponse, on, self.labeled_response),
            message_tags: switched(cap, Cap::MessageTags, on, self.message_tags),
            multi_prefix: switched(cap, Cap::MultiPrefix, on, self.multi_prefix),
            sasl: switched(cap, Cap::Sasl, on, self.sasl),
            server_time: switched(cap, Cap::ServerTime, on, self.server_time),
            setname: switched(cap, Cap::SetName, on, self.setname),
            userhost_in_names: switched(cap, Cap::UserhostInNames, on, self.userhost_in_names),
        }
    }

    /// These capabilities after the requests were granted in order; a
    /// request that names no capability grants nothing.
    pub open spec fn granted(self, requests: Seq<CapRequest>) -> Capabilities
        decreases requests.len(),
    {
        if requests.len() == 0 {
            self
        } else {
            let next = match cap_of(requests[0].word) {
                Some(cap) => self.with(cap, requests[0].on),
                None => self,
            };
            next.granted(requests.subrange(1, requests.len() as int))
        }
    }

    /// Whether lines are sent to the client with their tags: it has asked
    /// for message tags, for labeled responses or for the server time.
    pub open spec fn takes_tags(self) -> bool {
        self.message_tags || self.labeled_response || self.server_time
    }

    /// Whether the client may use the command, and is sent it: the SASL
    /// command, `SETNAME` and `TAGMSG` each need their capability.
    pub open spec fn capable_of(self, command: Command) -> bool {
        match command {
            Command::Authenticate => self.sasl,
            Command::SetName => self.setname,
            Command::TagMsg => self.takes_tags(),
            _ => true,
        }
    }

    pub fn has_message_tags(&self) -> (r: bool)
        ensures
            r == self.takes_tags(),
    {
        self.message_tags || self.labeled_response || self.server_time
    }

    pub fn has_labeled_response(&self) -> (r: bool)
        ensures
            r == self.labeled_response,
    {
        self.labeled_response
    }

    pub fn is_capable_of(&self, command: Command) -> (r: bool)
        ensures
            r == self.capable_of(command),
    {
        match command {
            Command::Authenticate => self.sasl,
            Command::SetName => self.setname,
            Command::TagMsg => self.has_message_tags(),
            _ => true,
        }
    }

    /// Whether the client has the capability.
    pub fn is_enabled(&self, cap: Cap) -> (r: bool)
        ensures
            r == self.has(cap),
    {
        match cap {
            Cap::AccountNotify => self.account_notify,
            Cap::AwayNotify => self.away_notify,
            Cap::Batch => self.batch,
            Cap::CapNotify => self.cap_notify,
            Cap::EchoMessage => self.echo_message,
            Cap::InviteNotify => self.invite_notify,
            Cap::LabeledResponse => self.labeled_response,
            Cap::MessageTags => self.message_tags,
            Cap::MultiPrefix => self.multi_prefix,
            Cap::Sasl => self.sasl,
            Cap::ServerTime => self.server_time,
            Cap::SetName => self.setname,
            Cap::UserhostInNames => self.userhost_in_names,
        }
    }

    /// Switches one capability on or off.
    pub fn set(&mut self, cap: Cap, on: bool)
        ensures
            *final(self) == old(self).with(cap, on),
    {
        let now = Capabilities {
            v302: self.v302,
            account_notify: switch(cap, Cap::AccountNotify, on, self.account_notify),
            away_notify: switch(cap, Cap::AwayNotify, on, self.away_notify),
            batch: switch(cap, Cap::Batch, on, self.batch),
            cap_notify: switch(cap, Cap::CapNotify, on, self.cap_notify),
            echo_message: switch(cap, Cap::EchoMessage, on, self.echo_message),
            invite_notify: switch(cap, Cap::InviteNotify, on, self.invite_notify),
            labeled_response: switch(cap, Cap::LabeledResponse, on, self.labeled_response),
            message_tags: switch(cap, Cap::MessageTags, on, self.message_tags),
            multi_prefix: switch(cap, Cap::MultiPrefix, on, self.multi_prefix),
            sasl: switch(cap, Cap::Sasl, on, self.sasl),
            server_time: switch(cap, Cap::ServerTime, on, self.server_time),
            setname: switch(cap, Cap::SetName, on, self.setname),
            userhost_in_names: switch(cap, Cap::UserhostInNames, on, self.userhost_in_names),
        };
        *self = now;
    }
}

/// The state of the capability `which` after `cap` was switched: `on`
/// where it is `cap`, else as before.
pub open spec fn switched(cap: Cap, which: Cap, on: bool, before: bool) -> bool {
    if cap == which {
        on
    } else {
        before
    }
}

fn switch(cap: Cap, which: Cap, on: bool, before: bool) -> (r: bool)
    ensures
        r == switched(cap, which, on, before),
{
    if cap == which {
        on
    } else {
        before
    }
}

/// The capabilities in the order in which they are listed.
pub open spec fn cap_at(i: int) -> Cap {
    if i == 0 {
        Cap::AccountNotify
    } else if i == 1 {
        Cap::AwayNotify
    } else if i == 2 {
        Cap::Batch
    } else if i == 3 {
        Cap::CapNotify
    } else if i == 4 {
        Cap::EchoMessage
    } else if i == 5 {
        Cap::InviteNotify
    } else if i == 6 {
        Cap::LabeledResponse
    } else if i == 7 {
        Cap::MessageTags
    } else if i == 8 {
        Cap::MultiPrefix
    } else if i == 9 {
        Cap::Sasl
    } else if i == 10 {
        Cap::ServerTime
    } else if i == 11 {
        Cap::SetName
    } else {
        Cap::UserhostInNames
    }
}

/// The number of capabilities.
pub const CAP_COUNT: usize = 13;

fn nth_cap(i: usize) -> (r: Cap)
    ensures
        r == cap_at(i as int),
{
    if i == 0 {
        Cap::AccountNotify
    } else if i == 1 {
        Cap::AwayNotify
    } else if i == 2 {
        Cap::Batch
    } else if i == 3 {
        Cap::CapNotify
    } else if i == 4 {
        Cap::EchoMessage
    } else if i == 5 {
        Cap::InviteNotify
    } else if i == 6 {
        Cap::LabeledResponse
    } else if i == 7 {
        Cap::MessageTags
    } else if i == 8 {
        Cap::MultiPrefix
    } else if i == 9 {
        Cap::Sasl
    } else if i == 10 {
        Cap::ServerTime
    } else if i == 11 {
        Cap::SetName
    } else {
        Cap::UserhostInNames
    }
}

/// The bounds of the next word of `s` at or after `i`, or `None` where only
/// spaces are left.
fn next_word(s: &[u8], i: usize) -> (r: Option<(usize, usize)>)
    requires
        i <= s.len(),
    ensures
        match r {
            Some((start, end)) => start == skip_spaces(s@, i as int) && i <= start < end
                <= s.len() && end == position(s@, start as int, SPACE),
            None => skip_spaces(s@, i as int) >= s.len(),
        },
{
    let mut start: usize = i;
    while start < s.len() && s[start] == SPACE
        invariant
            i <= start <= s.len(),
            skip_spaces(s@, start as int) == skip_spaces(s@, i as int),
        decreases s.len() - start,
    {
        start += 1;
    }
    if start >= s.len() {
        return None;
    }
    let end = find(s, start, SPACE);
    proof {
        crate::text::lemma_position(s@, start as int, SPACE);
    }
    Some((start, end))
}

/// Whether every word of a `CAP REQ` names a capability that the server
/// offers.
pub fn are_supported(capabilities: &[u8]) -> (r: bool)
    ensures
        r == all_supported(cap_requests(capabilities@, 0)),
{
    let s = capabilities;
    let ghost all = cap_requests(s@, 0);
    let mut i: usize = 0;
    let ghost mut done: Seq<CapRequest> = Seq::empty();
    assert(done + cap_requests(s@, 0) =~= all);
    loop
        invariant
            i <= s.len(),
            s@ == capabilities@,
            all == cap_requests(s@, 0),
            done + cap_requests(s@, i as int) == all,
            all_supported(done),
        decreases s.len() - i,
    {
        match next_word(s, i) {
            None => {
                assert(done + cap_requests(s@, i as int) =~= done);
                return true;
            },
            Some((start, end)) => {
                let word = slice(s, start, end);
                let name = if word[0] == MINUS {
                    slice(word.as_slice(), 1, word.len())
                } else {
                    word
                };
                let ghost request = cap_request(s@.subrange(start as int, end as int));
                proof {
                    assert(name@ == request.word);
                    assert(cap_requests(s@, i as int) =~= seq![request] + cap_requests(
                        s@,
                        end as int,
                    ));
                    assert(done.push(request) + cap_requests(s@, end as int) =~= all);
                }
                if parse_cap(name.as_slice()).is_none() {
                    assert(all[done.len() as int] == request);
                    return false;
                }
                proof {
                    done = done.push(request);
                }
                i = end;
            },
        }
    }
}

impl Capabilities {
    /// Grants the requests of a `CAP REQ` in order.
    pub fn update(&mut self, capabilities: &[u8])
        ensures
            *final(self) == old(self).granted(cap_requests(capabilities@, 0)),
    {
        let s = capabilities;
        let mut i: usize = 0;
        loop
            invariant
                i <= s.len(),
                s@ == capabilities@,
                self.granted(cap_requests(s@, i as int)) == old(self).granted(
                    cap_requests(s@, 0),
                ),
            decreases s.len() - i,
        {
            match next_word(s, i) {
                None => {
                    return ;
                },
                Some((start, end)) => {
                    let word = slice(s, start, end);
                    let on = word[0] != MINUS;
                    let name = if on {
                        word
                    } else {
                        slice(word.as_slice(), 1, word.len())
                    };
                    let ghost request = cap_request(s@.subrange(start as int, end as int));
                    let ghost rest = cap_requests(s@, i as int);
                    proof {
                        assert(name@ == request.word);
                        assert(rest =~= seq![request] + cap_requests(s@, end as int));
                        assert(rest.subrange(1, rest.len() as int) =~= cap_requests(
                            s@,
                            end as int,
                        ));
                    }
                    match parse_cap(name.as_slice()) {
                        Some(cap) => self.set(cap, on),
                        None => {},
                    }
                    i = end;
                },
            }
        }
    }

    /// The names of the capabilities that the client has among those from
    /// `i` on in the list, each followed by a space.
    pub open spec fn enabled_names(self, i: int) -> Seq<u8>
        decreases CAP_COUNT - i,
    {
        if i < 0 || i >= CAP_COUNT {
            Seq::<u8>::empty()
        } else {
            self.name_if(cap_at(i)) + self.enabled_names(i + 1)
        }
    }

    pub open spec fn name_if(self, cap: Cap) -> Seq<u8> {
        if self.has(cap) {
            cap_name(cap) + seq![SPACE]
        } else {
            Seq::<u8>::empty()
        }
    }

    /// Appends the names of the capabilities that the client has, each
    /// followed by a space.
    pub fn write_enabled(&self, dst: &mut Vec<u8>)
        ensures
            final(dst)@ == old(dst)@ + self.enabled_names(0),
    {
        let mut i: usize = 0;
        while i < CAP_COUNT
            invariant
                i <= CAP_COUNT,
                dst@ + self.enabled_names(i as int) == old(dst)@ + self.enabled_names(0),
            decreases CAP_COUNT - i,
        {
            let cap = nth_cap(i);
            let ghost before = dst@;
            if self.is_enabled(cap) {
                write_cap(cap, dst);
                dst.push(SPACE);
            }
            assert(dst@ =~= before + self.name_if(cap));
            assert(dst@ + self.enabled_names(i + 1) =~= before + self.enabled_names(i as int));
            i += 1;
        }
        assert(dst@ + self.enabled_names(CAP_COUNT as int) =~= dst@);
    }
}

/// The capabilities that the server offers whatever its configuration,
/// parted by spaces: all but `sasl`.
pub const LS_COMMON: &'static str =
    "account-notify away-notify batch cap-notify echo-message invite-notify labeled-response message-tags multi-prefix server-time setname userhost-in-names";

/// The capabilities that the server offers whatever its configuration.
pub fn ls_common() -> (r: &'static str)
    ensures
        r == LS_COMMON,
{
    LS_COMMON
}

/// How far a client has come on its way to registration.  Each field is a
/// condition of its own; a client becomes registered when all are met, and
/// stays so.
#[derive(Clone, Copy, Debug, PartialEq, Eq, Structural)]
pub struct ConnectionState {
    /// A `NICK` was accepted.
    pub nick: bool,
    /// A `USER` was accepted.
    pub user: bool,
    /// A `PASS` was accepted.
    pub pass: bool,
    /// A negotiation of capabilities was begun and not ended.
    pub cap_pending: bool,
    /// All conditions were met at some time.
    pub registered: bool,
}

/// The sub-commands of `CAP` that begin a negotiation.
pub open spec fn begins_negotiation(sub: Seq<u8>) -> bool {
    sub == "LS".spec_bytes() || sub == "REQ".spec_bytes()
}

/// The sub-command of `CAP` that ends a negotiation.
pub open spec fn ends_negotiation(sub: Seq<u8>) -> bool {
    sub == "END".spec_bytes()
}

impl ConnectionState {
    /// The state of a connection that has sent nothing.
    pub open spec fn start() -> ConnectionState {
        ConnectionState { nick: false, user: false, pass: false, cap_pending: false, registered: false }
    }

    /// Whether every condition is met: a nickname and a user name were given,
    /// the password where the server asks for one, no negotiation of
    /// capabilities is open and no SASL exchange is under way.
    pub open spec fn conditions_met(self, needs_pass: bool, sasl_pending: bool) -> bool {
        self.nick && self.user && (self.pass || !needs_pass) && !self.cap_pending && !sasl_pending
    }

    /// The conditions after a command was accepted, the last one not yet
    /// looked at.
    pub open spec fn conditions_after(self, command: Command, sub: Seq<u8>) -> ConnectionState {
        match command {
            Command::Nick => ConnectionState { nick: true, ..self },
            Command::User => ConnectionState { user: true, ..self },
            Command::Pass => ConnectionState { pass: true, ..self },
            Command::Cap => if begins_negotiation(sub) {
                ConnectionState { cap_pending: true, ..self }
            } else if ends_negotiation(sub) {
                ConnectionState { cap_pending: false, ..self }
            } else {
                self
            },
            _ => self,
        }
    }

    /// The state after a command was accepted.  A registered client stays
    /// as it is; another meets the condition of the command, and is
    /// registered where all conditions are met then.
    pub open spec fn after(
        self,
        command: Command,
        sub: Seq<u8>,
        needs_pass: bool,
        sasl_pending: bool,
    ) -> ConnectionState {
        if self.registered {
            self
        } else {
            let met = self.conditions_after(command, sub);
            ConnectionState { registered: met.conditions_met(needs_pass, sasl_pending), ..met }
        }
    }

    /// Whether a client in this state may issue the command.  Before
    /// registration only the commands of the handshake and `QUIT` are
    /// open; after it all but `USER` and `PASS`.
    pub open spec fn may_issue(self, command: Command) -> bool {
        if self.registered {
            command != Command::User && command != Command::Pass
        } else {
            command == Command::Cap || command == Command::Authenticate || command == Command::Nick
                || command == Command::Pass || command == Command::User || command
                == Command::Quit
        }
    }

    pub fn is_registered(&self) -> (r: bool)
        ensures
            r == self.registered,
    {
        self.registered
    }
}

/// A client.
pub struct Client {
    /// The host that the client connected from.
    pub host: Vec<u8>,
    /// The nickname; empty until a `NICK` was accepted.
    pub nick: Vec<u8>,
    /// The user name; empty until a `USER` was accepted.
    pub user: Vec<u8>,
    /// The real name; empty until a `USER` was accepted.
    pub real: Vec<u8>,
    pub capabilities: Capabilities,
    pub state: ConnectionState,
    /// The handle of the SASL exchange that is under way.
    pub auth_id: Option<usize>,
    /// The base64 text of the response received so far.
    pub auth_buffer: Vec<u8>,
    /// The account, once a SASL exchange has succeeded.
    pub identity: Option<Vec<u8>>,
    pub operator: bool,
    pub invisible: bool,
    pub wallops: bool,
    pub server_notices: bool,
    pub away_message: Option<Vec<u8>>,
    /// When the client connected, in seconds.
    pub signon_time: u64,
    /// When the client last sent a message to someone, in seconds.
    pub last_action_time: u64,
}

/// What a client holds.
pub struct ClientView {
    pub host: Seq<u8>,
    pub nick: Seq<u8>,
    pub user: Seq<u8>,
    pub real: Seq<u8>,
    pub capabilities: Capabilities,
    pub state: ConnectionState,
    pub auth_id: Option<usize>,
    pub auth_buffer: Seq<u8>,
    pub identity: Option<Seq<u8>>,
    pub operator: bool,
    pub invisible: bool,
    pub wallops: bool,
    pub server_notices: bool,
    pub away_message: Option<Seq<u8>>,
    pub signon_time: u64,
    pub last_action_time: u64,
}

impl View for Client {
    type V = ClientView;

    open spec fn view(&self) -> ClientView {
        ClientView {
            host: self.host@,
            nick: self.nick@,
            user: self.user@,
            real: self.real@,
            capabilities: self.capabilities,
            state: self.state,
            auth_id: self.auth_id,
            auth_buffer: self.auth_buffer@,
            identity: match self.identity {
                Some(i) => Some(i@),
                None => None,
            },
            operator: self.operator,
            invisible: self.invisible,
            wallops: self.wallops,
            server_notices: self.server_notices,
            away_message: match self.away_message {
                Some(m) => Some(m@),
                None => None,
            },
            signon_time: self.signon_time,
            last_action_time: self.last_action_time,
        }
    }
}

/// A client that has connected from `host` at `now` and sent nothing.
pub open spec fn fresh_client(host: Seq<u8>, now: u64) -> ClientView {
    ClientView {
        host,
        nick: Seq::<u8>::empty(),
        user: Seq::<u8>::empty(),
        real: Seq::<u8>::empty(),
        capabilities: Capabilities::none(),
        state: ConnectionState::start(),
        auth_id: None,
        auth_buffer: Seq::<u8>::empty(),
        identity: None,
        operator: false,
        invisible: false,
        wallops: false,
        server_notices: false,
        away_message: None,
        signon_time: now,
        last_action_time: now,
    }
}

/// The name under which a client is shown to others:
/// `nick!~user@host`.
pub open spec fn full_name(c: ClientView) -> Seq<u8> {
    c.nick + seq![BANG, TILDE] + c.user + seq![AT] + c.host
}

/// The nickname as it stands in a numeric reply: `*` for a client that
/// has none.
pub open spec fn reply_nick(nick: Seq<u8>) -> Seq<u8> {
    if nick.len() == 0 {
        seq![STAR]
    } else {
        nick
    }
}

/// What pushing one `AUTHENTICATE` payload does to the text received so
/// far: `+` stands for an empty payload; a response that would grow over
/// the cap is refused and the text kept.
pub open spec fn pushed(buffer: Seq<u8>, payload: Seq<u8>) -> Option<Seq<u8>> {
    if AUTHENTICATE_WHOLE_LEN < buffer.len() + payload.len() {
        None
    } else if payload == seq![PLUS] {
        Some(buffer)
    } else {
        Some(buffer + payload)
    }
}

impl Client {
    /// A client that has connected from `host` at `now` and sent nothing.
    pub fn new(host: Vec<u8>, now: u64) -> (c: Client)
        ensures
            c@ == fresh_client(host@, now),
    {
        let c = Client {
            host,
            nick: Vec::new(),
            user: Vec::new(),
            real: Vec::new(),
            capabilities: Capabilities {
                v302: false,
                account_notify: false,
                away_notify: false,
                batch: false,
                cap_notify: false,
                echo_message: false,
                invite_notify: false,
                labeled_response: false,
                message_tags: false,
                multi_prefix: false,
                sasl: false,
                server_time: false,
                setname: false,
                userhost_in_names: false,
            },
            state: ConnectionState {
                nick: false,
                user: false,
                pass: false,
                cap_pending: false,
                registered: false,
            },
            auth_id: None,
            auth_buffer: Vec::new(),
            identity: None,
            operator: false,
            invisible: false,
            wallops: false,
            server_notices: false,
            away_message: None,
            signon_time: now,
            last_action_time: now,
        };
        assert(c@.nick =~= Seq::<u8>::empty());
        assert(c@.user =~= Seq::<u8>::empty());
        assert(c@.real =~= Seq::<u8>::empty());
        assert(c@.auth_buffer =~= Seq::<u8>::empty());
        c
    }

    pub fn is_registered(&self) -> (r: bool)
        ensures
            r == self@.state.registered,
    {
        self.state.registered
    }

    /// The name under which the client is shown to others.
    pub fn full_name(&self) -> (r: Vec<u8>)
        ensures
            r@ == full_name(self@),
    {
        let mut r = to_vec(self.nick.as_slice());
        r.push(BANG);
        r.push(TILDE);
        append(&mut r, self.user.as_slice());
        r.push(AT);
        append(&mut r, self.host.as_slice());
        assert(r@ =~= full_name(self@));
        r
    }

    /// Whether the client may issue the command in its state.
    pub fn can_issue_command(&self, command: Command) -> (r: bool)
        ensures
            r == self@.state.may_issue(command),
    {
        if self.state.registered {
            command != Command::User && command != Command::Pass
        } else {
            command == Command::Cap || command == Command::Authenticate || command == Command::Nick
                || command == Command::Pass || command == Command::User || command
                == Command::Quit
        }
    }

    /// Moves the state on after a command was accepted, and returns the
    /// new state.  `needs_pass` says whether the server asks for a
    /// password.
    pub fn apply_command(&mut self, command: Command, sub: &[u8], needs_pass: bool) -> (r:
        ConnectionState)
        ensures
            r == old(self)@.state.after(command, sub@, needs_pass, old(self)@.auth_id.is_some()),
            final(self)@ == (ClientView { state: r, ..old(self)@ }),
    {
        let before = self.state;
        if before.registered {
            return before;
        }
        let cap_pending = if command == Command::Cap {
            if eq_str(sub, "LS") || eq_str(sub, "REQ") {
                true
            } else if eq_str(sub, "END") {
                false
            } else {
                before.cap_pending
            }
        } else {
            before.cap_pending
        };
        let nick = before.nick || command == Command::Nick;
        let user = before.user || command == Command::User;
        let pass = before.pass || command == Command::Pass;
        let registered = nick && user && (pass || !needs_pass) && !cap_pending
            && self.auth_id.is_none();
        let now = ConnectionState { nick, user, pass, cap_pending, registered };
        self.state = now;
        now
    }

    /// Takes in one `AUTHENTICATE` payload.  `Ok(true)` says that the
    /// response is complete: the payload was shorter than a full chunk.
    /// `Err` says that the response grew too long; the text received so far
    /// is kept.
    pub fn auth_buffer_push(&mut self, payload: &[u8]) -> (r: Result<bool, ()>)
        ensures
            match pushed(old(self)@.auth_buffer, payload@) {
                Some(buffer) => r == Ok::<bool, ()>(payload@.len() < AUTHENTICATE_CHUNK_LEN)
                    && final(self)@ == (ClientView { auth_buffer: buffer, ..old(self)@ }),
                None => r.is_err() && final(self)@ == old(self)@,
            },
    {
        if self.auth_buffer.len() > AUTHENTICATE_WHOLE_LEN || payload.len()
            > AUTHENTICATE_WHOLE_LEN - self.auth_buffer.len() {
            return Err(());
        }
        let is_plus = payload.len() == 1 && payload[0] == PLUS;
        assert(is_plus == (payload@ == seq![PLUS])) by {
            if is_plus {
                assert(payload@ =~= seq![PLUS]);
            }
        }
        if !is_plus {
            append(&mut self.auth_buffer, payload);
        }
        Ok(payload.len() < AUTHENTICATE_CHUNK_LEN)
    }

    /// Notes whether the client asks for the list of capabilities in the
    /// form of version 302.
    pub fn set_version(&mut self, v302: bool)
        ensures
            final(self)@ == (ClientView {
                capabilities: with_version(old(self)@.capabilities, v302),
                ..old(self)@
            }),
    {
        let before = self.capabilities;
        self.capabilities = Capabilities {
            v302,
            account_notify: before.account_notify,
            away_notify: before.away_notify,
            batch: before.batch,
            cap_notify: before.cap_notify,
            echo_message: before.echo_message,
            invite_notify: before.invite_notify,
            labeled_response: before.labeled_response,
            message_tags: before.message_tags,
            multi_prefix: before.multi_prefix,
            sasl: before.sasl,
            server_time: before.server_time,
            setname: before.setname,
            userhost_in_names: before.userhost_in_names,
        };
    }

    /// Forgets the SASL exchange that is under way.
    pub fn auth_reset(&mut self)
        ensures
            final(self)@ == (ClientView {
                auth_id: None,
                auth_buffer: Seq::<u8>::empty(),
                ..old(self)@
            }),
    {
        self.auth_id = None;
        self.auth_buffer = Vec::new();
        assert(self@.auth_buffer =~= Seq::<u8>::empty());
    }

    /// Decodes the response received so far and forgets its text.  The
    /// text is kept, and `None` returned, where it is longer than the
    /// decoder takes.
    pub fn auth_buffer_decode(&mut self) -> (r: Option<Vec<u8>>)
        ensures
            final(self)@ == (ClientView { auth_buffer: Seq::<u8>::empty(), ..old(self)@ }),
            old(self)@.auth_buffer.len() <= codec::BASE64_INPUT_MAX ==> match codec::base64_decoded(
                old(self)@.auth_buffer,
            ) {
                Some(d) => r.is_some() && r.unwrap()@ == d,
                None => r.is_none(),
            },
            old(self)@.auth_buffer.len() > codec::BASE64_INPUT_MAX ==> r.is_none(),
    {
        let r = if self.auth_buffer.len() <= codec::BASE64_INPUT_MAX {
            codec::decode(self.auth_buffer.as_slice())
        } else {
            None
        };
        self.auth_buffer = Vec::new();
        assert(self@.auth_buffer =~= Seq::<u8>::empty());
        r
    }
}

} // verus!
