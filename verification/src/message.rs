//! Reading one line of the protocol.
//!
//! A line has the shape
//! `['@' tags SP] [':' prefix SP] command (SP param)* [SP ':' trailing]`.
//! `parse_line` says what a line holds; `Message::parse` computes it.

use vstd::prelude::*;
use vstd::string::StringSliceAdditionalSpecFns;
use crate::text::{
    all_digits, append_str, eq, eq_fold_str, find, fold, is_digit, lemma_position,
    position, slice, to_vec, AT, COLON, CR, LF, NUL, SPACE,
};

verus! {

/// The most parameters that a message holds.
pub const PARAMS_LENGTH: usize = 15;

/// The most bytes of a message without its tags, the final CR-LF counted.
pub const MESSAGE_LENGTH: usize = 512;

/// The most bytes of the tags of a message.
pub const MAX_TAG_DATA_LENGTH: usize = 4094;

/// The commands that the server knows, and the numeric replies.
#[derive(Clone, Copy, Debug, PartialEq, Eq, Structural)]
pub enum Command {
    Admin,
    Authenticate,
    Away,
    Cap,
    Info,
    Invite,
    Join,
    Kick,
    Kill,
    List,
    Lusers,
    Mode,
    Motd,
    Names,
    Nick,
    Notice,
    Oper,
    Part,
    Pass,
    Ping,
    Pong,
    PrivMsg,
    Quit,
    Rehash,
    SetName,
    TagMsg,
    Time,
    Topic,
    User,
    Version,
    Who,
    Whois,
    Reply(u16),
}

/// The three digits of a numeric reply.
pub open spec fn reply_digits(n: u16) -> Seq<u8> {
    seq![
        (0x30 + (n / 100) % 10) as u8,
        (0x30 + (n / 10) % 10) as u8,
        (0x30 + n % 10) as u8,
    ]
}

/// The word that stands for a command on the wire.
pub open spec fn command_name(c: Command) -> Seq<u8> {
    match c {
        Command::Admin => "ADMIN".spec_bytes(),
        Command::Authenticate => "AUTHENTICATE".spec_bytes(),
        Command::Away => "AWAY".spec_bytes(),
        Command::Cap => "CAP".spec_bytes(),
        Command::Info => "INFO".spec_bytes(),
        Command::Invite => "INVITE".spec_bytes(),
        Command::Join => "JOIN".spec_bytes(),
        Command::Kick => "KICK".spec_bytes(),
        Command::Kill => "KILL".spec_bytes(),
        Command::List => "LIST".spec_bytes(),
        Command::Lusers => "LUSERS".spec_bytes(),
        Command::Mode => "MODE".spec_bytes(),
        Command::Motd => "MOTD".spec_bytes(),
        Command::Names => "NAMES".spec_bytes(),
        Command::Nick => "NICK".spec_bytes(),
        Command::Notice => "NOTICE".spec_bytes(),
        Command::Oper => "OPER".spec_bytes(),
        Command::Part => "PART".spec_bytes(),
        Command::Pass => "PASS".spec_bytes(),
        Command::Ping => "PING".spec_bytes(),
        Command::Pong => "PONG".spec_bytes(),
        Command::PrivMsg => "PRIVMSG".spec_bytes(),
        Command::Quit => "QUIT".spec_bytes(),
        Command::Rehash => "REHASH".spec_bytes(),
        Command::SetName => "SETNAME".spec_bytes(),
        Command::TagMsg => "TAGMSG".spec_bytes(),
        Command::Time => "TIME".spec_bytes(),
        Command::Topic => "TOPIC".spec_bytes(),
        Command::User => "USER".spec_bytes(),
        Command::Version => "VERSION".spec_bytes(),
        Command::Who => "WHO".spec_bytes(),
        Command::Whois => "WHOIS".spec_bytes(),
        Command::Reply(n) => reply_digits(n),
    }
}

/// Whether `word` is the name of `c`, capitals and small letters taken as
/// the same.
pub open spec fn names(word: Seq<u8>, c: Command) -> bool {
    fold(word) == fold(command_name(c))
}

/// The command that a word stands for: a numeric reply where it is three
/// digits, else the first command in the list whose name it is, else the word
/// itself as an unknown command.
pub open spec fn command_of(word: Seq<u8>) -> Result<Command, Seq<u8>> {
    if word.len() == 3 && all_digits(word) {
        Ok(Command::Reply(((word[0] - 0x30) * 100 + (word[1] - 0x30) * 10 + (word[2] - 0x30)) as u16))
    } else if names(word, Command::Admin) {
        Ok(Command::Admin)
    } else if names(word, Command::Authenticate) {
        Ok(Command::Authenticate)
    } else if names(word, Command::Away) {
        Ok(Command::Away)
    } else if names(word, Command::Cap) {
        Ok(Command::Cap)
    } else if names(word, Command::Info) {
        Ok(Command::Info)
    } else if names(word, Command::Invite) {
        Ok(Command::Invite)
    } else if names(word, Command::Join) {
        Ok(Command::Join)
    } else if names(word, Command::Kick) {
        Ok(Command::Kick)
    } else if names(word, Command::Kill) {
        Ok(Command::Kill)
    } else if names(word, Command::List) {
        Ok(Command::List)
    } else if names(word, Command::Lusers) {
        Ok(Command::Lusers)
    } else if names(word, Command::Mode) {
        Ok(Command::Mode)
    } else if names(word, Command::Motd) {
        Ok(Command::Motd)
    } else if names(word, Command::Names) {
        Ok(Command::Names)
    } else if names(word, Command::Nick) {
        Ok(Command::Nick)
    } else if names(word, Command::Notice) {
        Ok(Command::Notice)
    } else if names(word, Command::Oper) {
        Ok(Command::Oper)
    } else if names(word, Command::Part) {
        Ok(Command::Part)
    } else if names(word, Command::Pass) {
        Ok(Command::Pass)
    } else if names(word, Command::Ping) {
        Ok(Command::Ping)
    } else if names(word, Command::Pong) {
        Ok(Command::Pong)
    } else if names(word, Command::PrivMsg) {
        Ok(Command::PrivMsg)
    } else if names(word, Command::Quit) {
        Ok(Command::Quit)
    } else if names(word, Command::Rehash) {
        Ok(Command::Rehash)
    } else if names(word, Command::SetName) {
        Ok(Command::SetName)
    } else if names(word, Command::TagMsg) {
        Ok(Command::TagMsg)
    } else if names(word, Command::Time) {
        Ok(Command::Time)
    } else if names(word, Command::Topic) {
        Ok(Command::Topic)
    } else if names(word, Command::User) {
        Ok(Command::User)
    } else if names(word, Command::Version) {
        Ok(Command::Version)
    } else if names(word, Command::Who) {
        Ok(Command::Who)
    } else if names(word, Command::Whois) {
        Ok(Command::Whois)
    } else {
        Err(word)
    }
}

/// The number of parameters that a command needs at least.
pub open spec fn required_params(c: Command) -> nat {
    match c {
        Command::Authenticate => 1,
        Command::Cap => 1,
        Command::Invite => 2,
        Command::Join => 1,
        Command::Kick => 2,
        Command::Kill => 2,
        Command::Mode => 1,
        Command::Nick => 1,
        Command::Notice => 2,
        Command::Oper => 2,
        Command::Part => 1,
        Command::Pass => 1,
        Command::Ping => 1,
        Command::Pong => 1,
        Command::PrivMsg => 2,
        Command::SetName => 1,
        Command::TagMsg => 1,
        Command::Topic => 1,
        Command::User => 4,
        Command::Whois => 1,
        _ => 0,
    }
}

impl Command {
    /// Appends the word that stands for the command to `dst`.
    pub fn write_name(&self, dst: &mut Vec<u8>)
        ensures
            final(dst)@ == old(dst)@ + command_name(*self),
    {
        match self {
            Command::Admin => append_str(dst, "ADMIN"),
            Command::Authenticate => append_str(dst, "AUTHENTICATE"),
            Command::Away => append_str(dst, "AWAY"),
            Command::Cap => append_str(dst, "CAP"),
            Command::Info => append_str(dst, "INFO"),
            Command::Invite => append_str(dst, "INVITE"),
            Command::Join => append_str(dst, "JOIN"),
            Command::Kick => append_str(dst, "KICK"),
            Command::Kill => append_str(dst, "KILL"),
            Command::List => append_str(dst, "LIST"),
            Command::Lusers => append_str(dst, "LUSERS"),
            Command::Mode => append_str(dst, "MODE"),
            Command::Motd => append_str(dst, "MOTD"),
            Command::Names => append_str(dst, "NAMES"),
            Command::Nick => append_str(dst, "NICK"),
            Command::Notice => append_str(dst, "NOTICE"),
            Command::Oper => append_str(dst, "OPER"),
            Command::Part => append_str(dst, "PART"),
            Command::Pass => append_str(dst, "PASS"),
            Command::Ping => append_str(dst, "PING"),
            Command::Pong => append_str(dst, "PONG"),
            Command::PrivMsg => append_str(dst, "PRIVMSG"),
            Command::Quit => append_str(dst, "QUIT"),
            Command::Rehash => append_str(dst, "REHASH"),
            Command::SetName => append_str(dst, "SETNAME"),
            Command::TagMsg => append_str(dst, "TAGMSG"),
            Command::Time => append_str(dst, "TIME"),
            Command::Topic => append_str(dst, "TOPIC"),
            Command::User => append_str(dst, "USER"),
            Command::Version => append_str(dst, "VERSION"),
            Command::Who => append_str(dst, "WHO"),
            Command::Whois => append_str(dst, "WHOIS"),
            Command::Reply(n) => {
                let n: u16 = *n;
                let hundreds: u8 = ((n / 100) % 10) as u8;
                let tens: u8 = ((n / 10) % 10) as u8;
                let units: u8 = (n % 10) as u8;
                dst.push(0x30 + hundreds);
                dst.push(0x30 + tens);
                dst.push(0x30 + units);
                assert(dst@ =~= old(dst)@ + reply_digits(n));
            },
        }
    }

    /// The word that stands for the command.
    pub fn name(&self) -> (r: Vec<u8>)
        ensures
            r@ == command_name(*self),
    {
        let mut r: Vec<u8> = Vec::new();
        self.write_name(&mut r);
        assert(r@ =~= command_name(*self));
        r
    }

    /// Reads a command word.
    pub fn parse(word: &[u8]) -> (r: Result<Command, Vec<u8>>)
        ensures
            match command_of(word@) {
                Ok(c) => r == Ok::<Command, Vec<u8>>(c),
                Err(w) => r.is_err() && r->Err_0@ == w,
            },
    {
        if word.len() == 3 {
            let a = word[0];
            let b = word[1];
            let c = word[2];
            if 0x30 <= a && a <= 0x39 && 0x30 <= b && b <= 0x39 && 0x30 <= c && c <= 0x39 {
                let n: u16 = (a - 0x30) as u16 * 100 + (b - 0x30) as u16 * 10 + (c - 0x30) as u16;
                return Ok(Command::Reply(n));
            }
            assert(!all_digits(word@)) by {
                if all_digits(word@) {
                    assert(is_digit(word@[0]) && is_digit(word@[1]) && is_digit(word@[2]));
                }
            }
        }
        if eq_fold_str(word, "ADMIN") {
            Ok(Command::Admin)
        } else if eq_fold_str(word, "AUTHENTICATE") {
            Ok(Command::Authenticate)
        } else if eq_fold_str(word, "AWAY") {
            Ok(Command::Away)
        } else if eq_fold_str(word, "CAP") {
            Ok(Command::Cap)
        } else if eq_fold_str(word, "INFO") {
            Ok(Command::Info)
        } else if eq_fold_str(word, "INVITE") {
            Ok(Command::Invite)
        } else if eq_fold_str(word, "JOIN") {
            Ok(Command::Join)
        } else if eq_fold_str(word, "KICK") {
            Ok(Command::Kick)
        } else if eq_fold_str(word, "KILL") {
            Ok(Command::Kill)
        } else if eq_fold_str(word, "LIST") {
            Ok(Command::List)
        } else if eq_fold_str(word, "LUSERS") {
            Ok(Command::Lusers)
        } else if eq_fold_str(word, "MODE") {
            Ok(Command::Mode)
        } else if eq_fold_str(word, "MOTD") {
            Ok(Command::Motd)
        } else if eq_fold_str(word, "NAMES") {
            Ok(Command::Names)
        } else if eq_fold_str(word, "NICK") {
            Ok(Command::Nick)
        } else if eq_fold_str(word, "NOTICE") {
            Ok(Command::Notice)
        } else if eq_fold_str(word, "OPER") {
            Ok(Command::Oper)
        } else if eq_fold_str(word, "PART") {
            Ok(Command::Part)
        } else if eq_fold_str(word, "PASS") {
            Ok(Command::Pass)
        } else if eq_fold_str(word, "PING") {
            Ok(Command::Ping)
        } else if eq_fold_str(word, "PONG") {
            Ok(Command::Pong)
        } else if eq_fold_str(word, "PRIVMSG") {
            Ok(Command::PrivMsg)
        } else if eq_fold_str(word, "QUIT") {
            Ok(Command::Quit)
        } else if eq_fold_str(word, "REHASH") {
            Ok(Command::Rehash)
        } else if eq_fold_str(word, "SETNAME") {
            Ok(Command::SetName)
        } else if eq_fold_str(word, "TAGMSG") {
            Ok(Command::TagMsg)
        } else if eq_fold_str(word, "TIME") {
            Ok(Command::Time)
        } else if eq_fold_str(word, "TOPIC") {
            Ok(Command::Topic)
        } else if eq_fold_str(word, "USER") {
            Ok(Command::User)
        } else if eq_fold_str(word, "VERSION") {
            Ok(Command::Version)
        } else if eq_fold_str(word, "WHO") {
            Ok(Command::Who)
        } else if eq_fold_str(word, "WHOIS") {
            Ok(Command::Whois)
        } else {
            Err(to_vec(word))
        }
    }

    /// The number of parameters that the command needs at least.
    pub fn required_params(&self) -> (n: usize)
        ensures
            n == required_params(*self),
    {
        match self {
            Command::Authenticate => 1,
            Command::Cap => 1,
            Command::Invite => 2,
            Command::Join => 1,
            Command::Kick => 2,
            Command::Kill => 2,
            Command::Mode => 1,
            Command::Nick => 1,
            Command::Notice => 2,
            Command::Oper => 2,
            Command::Part => 1,
            Command::Pass => 1,
            Command::Ping => 1,
            Command::Pong => 1,
            Command::PrivMsg => 2,
            Command::SetName => 1,
            Command::TagMsg => 1,
            Command::Topic => 1,
            Command::User => 4,
            Command::Whois => 1,
            _ => 0,
        }
    }
}

/// What a message holds.
pub struct MessageView {
    /// The tags as they stood on the line, without the `@`.
    pub tags: Seq<u8>,
    /// The prefix, without the `:`.
    pub prefix: Option<Seq<u8>>,
    /// The command, or the word that is none.
    pub command: Result<Command, Seq<u8>>,
    /// The parameters, the trailing one without its `:`.
    pub params: Seq<Seq<u8>>,
}

/// One parsed line.
pub struct Message {
    pub tags: Vec<u8>,
    pub prefix: Option<Vec<u8>>,
    pub command: Result<Command, Vec<u8>>,
    pub params: Vec<Vec<u8>>,
}

impl View for Message {
    type V = MessageView;

    open spec fn view(&self) -> MessageView {
        MessageView {
            tags: self.tags@,
            prefix: match self.prefix {
                Some(p) => Some(p@),
                None => None,
            },
            command: match self.command {
                Ok(c) => Ok(c),
                Err(w) => Err(w@),
            },
            params: Seq::new(self.params@.len(), |i: int| self.params@[i]@),
        }
    }
}

/// Whether a byte ends a line or separates words.
pub open spec fn is_line_space(c: u8) -> bool {
    c == SPACE || c == CR || c == LF
}

/// `s` without the spaces, CR and LF at its end.
pub open spec fn trim_end(s: Seq<u8>) -> Seq<u8>
    decreases s.len(),
{
    if s.len() > 0 && is_line_space(s.last()) {
        trim_end(s.drop_last())
    } else {
        s
    }
}

/// The first position at or after `i` that holds no space.
pub open spec fn skip_spaces(s: Seq<u8>, i: int) -> int
    decreases s.len() - i,
{
    if 0 <= i < s.len() && s[i] == SPACE {
        skip_spaces(s, i + 1)
    } else {
        i
    }
}

pub proof fn lemma_skip_spaces(s: Seq<u8>, i: int)
    requires
        0 <= i <= s.len(),
    ensures
        i <= skip_spaces(s, i) <= s.len(),
        skip_spaces(s, i) < s.len() ==> s[skip_spaces(s, i)] != SPACE,
        forall|j: int| i <= j < skip_spaces(s, i) ==> s[j] == SPACE,
    decreases s.len() - i,
{
    if i < s.len() && s[i] == SPACE {
        lemma_skip_spaces(s, i + 1);
    }
}

/// A line without the spaces at its start and the spaces, CR and LF at its
/// end.
pub open spec fn trim(s: Seq<u8>) -> Seq<u8> {
    let t = trim_end(s);
    t.subrange(skip_spaces(t, 0), t.len() as int)
}

/// The bytes that no line may hold between its ends.
pub open spec fn is_forbidden(c: u8) -> bool {
    c == NUL || c == CR || c == LF
}

pub open spec fn has_forbidden(s: Seq<u8>) -> bool {
    exists|i: int| 0 <= i < s.len() && is_forbidden(#[trigger] s[i])
}

/// The parameters that stand in `s` from `i` on, `room` of them at most.
/// Words are parted by spaces; a word that starts with `:` takes the rest
/// of the line, spaces included.
pub open spec fn params_from(s: Seq<u8>, i: int, room: nat) -> Seq<Seq<u8>>
    decreases room,
{
    let start = skip_spaces(s, i);
    if room == 0 || start < 0 || start >= s.len() {
        seq![]
    } else if s[start] == COLON {
        seq![s.subrange(start + 1, s.len() as int)]
    } else {
        let end = position(s, start, SPACE);
        seq![s.subrange(start, end)] + params_from(s, end, (room - 1) as nat)
    }
}

/// What a trimmed line holds, or `None` where it holds no command or a
/// forbidden byte.
pub open spec fn parse_trimmed(s: Seq<u8>) -> Option<MessageView> {
    if s.len() == 0 || has_forbidden(s) {
        None
    } else {
        let tags_end = position(s, 0, SPACE);
        let tags = if s[0] == AT {
            s.subrange(1, tags_end)
        } else {
            Seq::<u8>::empty()
        };
        let after_tags = if s[0] == AT {
            skip_spaces(s, tags_end)
        } else {
            0
        };
        let has_prefix = after_tags < s.len() && s[after_tags] == COLON;
        let prefix_end = position(s, after_tags, SPACE);
        let prefix = if has_prefix {
            Some(s.subrange(after_tags + 1, prefix_end))
        } else {
            None
        };
        let after_prefix = if has_prefix {
            skip_spaces(s, prefix_end)
        } else {
            after_tags
        };
        if after_prefix >= s.len() {
            None
        } else {
            let command_end = position(s, after_prefix, SPACE);
            Some(
                MessageView {
                    tags,
                    prefix,
                    command: command_of(s.subrange(after_prefix, command_end)),
                    params: params_from(s, command_end, PARAMS_LENGTH as nat),
                },
            )
        }
    }
}

/// What a line holds.
pub open spec fn parse_line(line: Seq<u8>) -> Option<MessageView> {
    parse_trimmed(trim(line))
}

fn skip(s: &[u8], from: usize) -> (r: usize)
    requires
        from <= s.len(),
    ensures
        r == skip_spaces(s@, from as int),
        from <= r <= s.len(),
{
    let mut i: usize = from;
    while i < s.len() && s[i] == SPACE
        invariant
            from <= i <= s.len(),
            skip_spaces(s@, i as int) == skip_spaces(s@, from as int),
        decreases s.len() - i,
    {
        i += 1;
    }
    i
}

fn trimmed(line: &[u8]) -> (r: Vec<u8>)
    ensures
        r@ == trim(line@),
{
    let mut end: usize = line.len();
    assert(line@.subrange(0, line.len() as int) =~= line@);
    while end > 0 && (line[end - 1] == SPACE || line[end - 1] == CR || line[end - 1] == LF)
        invariant
            end <= line.len(),
            trim_end(line@.subrange(0, end as int)) == trim_end(line@),
        decreases end,
    {
        proof {
            let cur = line@.subrange(0, end as int);
            assert(cur.drop_last() =~= line@.subrange(0, end - 1));
        }
        end -= 1;
    }
    let ended = slice(line, 0, end);
    let start = skip(ended.as_slice(), 0);
    slice(ended.as_slice(), start, end)
}

fn check_forbidden(s: &[u8]) -> (r: bool)
    ensures
        r == has_forbidden(s@),
{
    let mut i: usize = 0;
    while i < s.len()
        invariant
            i <= s.len(),
            forall|j: int| 0 <= j < i ==> !is_forbidden(#[trigger] s@[j]),
        decreases s.len() - i,
    {
        let c = s[i];
        if c == NUL || c == CR || c == LF {
            assert(is_forbidden(s@[i as int]));
            return true;
        }
        i += 1;
    }
    false
}

fn read_params(s: &[u8], from: usize) -> (r: Vec<Vec<u8>>)
    requires
        from <= s.len(),
    ensures
        Seq::new(r@.len(), |i: int| r@[i]@) == params_from(s@, from as int, PARAMS_LENGTH as nat),
        r@.len() <= PARAMS_LENGTH,
{
    let mut params: Vec<Vec<u8>> = Vec::new();
    let mut i: usize = from;
    let ghost goal = params_from(s@, from as int, PARAMS_LENGTH as nat);
    while params.len() < PARAMS_LENGTH
        invariant_except_break
            Seq::new(params@.len(), |k: int| params@[k]@) + params_from(
                s@,
                i as int,
                (PARAMS_LENGTH - params@.len()) as nat,
            ) == goal,
        invariant
            i <= s.len(),
            params@.len() <= PARAMS_LENGTH,
        ensures
            Seq::new(params@.len(), |k: int| params@[k]@) == goal,
            params@.len() <= PARAMS_LENGTH,
        decreases PARAMS_LENGTH - params@.len(),
    {
        let ghost done = Seq::new(params@.len(), |k: int| params@[k]@);
        let ghost room = (PARAMS_LENGTH - params@.len()) as nat;
        let start = skip(s, i);
        if start >= s.len() {
            assert(done + params_from(s@, i as int, room) =~= done);
            break ;
        }
        if s[start] == COLON {
            let rest = slice(s, start + 1, s.len());
            params.push(rest);
            assert(Seq::new(params@.len(), |k: int| params@[k]@) =~= done + params_from(
                s@,
                i as int,
                room,
            ));
            break ;
        }
        let end = find(s, start, SPACE);
        let word = slice(s, start, end);
        params.push(word);
        proof {
            let now = Seq::new(params@.len(), |k: int| params@[k]@);
            assert(now =~= done.push(s@.subrange(start as int, end as int)));
            assert(now + params_from(s@, end as int, (room - 1) as nat) =~= done + params_from(
                s@,
                i as int,
                room,
            ));
        }
        i = end;
    }
    proof {
        let done = Seq::new(params@.len(), |k: int| params@[k]@);
        if params@.len() == PARAMS_LENGTH {
            assert(done + params_from(s@, i as int, 0) =~= done);
        }
    }
    params
}

impl Message {
    /// Reads one line.
    ///
    /// The line may end in CR-LF or not.  `None` comes back for a line that
    /// holds no command, and for one that holds a NUL, or a CR or LF before
    /// its end.
    pub fn parse(line: &[u8]) -> (r: Option<Message>)
        ensures
            match parse_line(line@) {
                Some(m) => r.is_some() && r.unwrap()@ == m,
                None => r.is_none(),
            },
    {
        let owned = trimmed(line);
        let s = owned.as_slice();
        if s.len() == 0 || check_forbidden(s) {
            return None;
        }
        let mut i: usize = 0;
        let mut tags: Vec<u8> = Vec::new();
        if s[0] == AT {
            let tags_end = find(s, 0, SPACE);
            proof {
                lemma_position(s@, 0, SPACE);
            }
            tags = slice(s, 1, tags_end);
            i = skip(s, tags_end);
        }
        let mut prefix: Option<Vec<u8>> = None;
        if i < s.len() && s[i] == COLON {
            let prefix_end = find(s, i, SPACE);
            proof {
                lemma_position(s@, i as int, SPACE);
            }
            prefix = Some(slice(s, i + 1, prefix_end));
            i = skip(s, prefix_end);
        }
        if i >= s.len() {
            return None;
        }
        let command_end = find(s, i, SPACE);
        let word = slice(s, i, command_end);
        let command = Command::parse(word.as_slice());
        let params = read_params(s, command_end);
        let message = Message { tags, prefix, command, params };
        proof {
            let m = parse_line(line@).unwrap();
            assert(message@.tags =~= m.tags);
            assert(message@.params =~= m.params);
        }
        Some(message)
    }

    /// The number of parameters.
    pub fn num_params(&self) -> (n: usize)
        ensures
            n == self@.params.len(),
    {
        self.params.len()
    }

    /// The parameter at `i`, or the empty string where the message has
    /// fewer.
    pub fn param(&self, i: usize) -> (p: &[u8])
        ensures
            p@ == param_or_empty(self@.params, i as int),
    {
        if i < self.params.len() {
            self.params[i].as_slice()
        } else {
            let empty: &[u8] = &[];
            assert(empty@ =~= Seq::<u8>::empty());
            empty
        }
    }

    /// Whether the message has the parameters that its command needs; one
    /// with an unknown command has.
    pub fn has_enough_params(&self) -> (r: bool)
        ensures
            r == enough_params(self@),
    {
        match &self.command {
            Ok(c) => self.params.len() >= c.required_params(),
            Err(_) => true,
        }
    }
}

pub open spec fn param_or_empty(params: Seq<Seq<u8>>, i: int) -> Seq<u8> {
    if 0 <= i < params.len() {
        params[i]
    } else {
        Seq::<u8>::empty()
    }
}

pub open spec fn enough_params(m: MessageView) -> bool {
    match m.command {
        Ok(c) => m.params.len() >= required_params(c),
        Err(_) => true,
    }
}

/// Whether a message is what is expected: the prefix, the command and the
/// number of parameters, and every parameter for which a non-empty one is
/// expected.  An empty expected parameter stands for any.
pub open spec fn message_is(
    m: MessageView,
    prefix: Option<Seq<u8>>,
    command: Result<Command, Seq<u8>>,
    params: Seq<Seq<u8>>,
) -> bool {
    &&& m.prefix == prefix
    &&& m.command == command
    &&& m.params.len() == params.len()
    &&& forall|i: int|
        0 <= i < params.len() && params[i].len() > 0 ==> #[trigger] m.params[i] == params[i]
}

/// Checks all of a message against what is expected of it.
///
/// An empty string among `params` is compared with nothing, and still
/// counts for the number of parameters.
pub fn assert_msg(
    msg: &Message,
    prefix: Option<&[u8]>,
    command: Result<Command, &[u8]>,
    params: &[&[u8]],
) -> (ok: bool)
    ensures
        ok == message_is(
            msg@,
            match prefix {
                Some(p) => Some(p@),
                None => None,
            },
            match command {
                Ok(c) => Ok(c),
                Err(w) => Err(w@),
            },
            Seq::new(params@.len(), |i: int| params@[i]@),
        ),
{
    let prefix_ok = match (&msg.prefix, prefix) {
        (Some(a), Some(b)) => eq(a.as_slice(), b),
        (None, None) => true,
        _ => false,
    };
    if !prefix_ok {
        return false;
    }
    let command_ok = match (&msg.command, command) {
        (Ok(a), Ok(b)) => *a == b,
        (Err(a), Err(b)) => eq(a.as_slice(), b),
        _ => false,
    };
    if !command_ok {
        return false;
    }
    if msg.params.len() != params.len() {
        return false;
    }
    let ghost expected = Seq::new(params@.len(), |i: int| params@[i]@);
    let mut i: usize = 0;
    while i < params.len()
        invariant
            i <= params.len(),
            msg.params@.len() == params@.len(),
            expected == Seq::new(params@.len(), |k: int| params@[k]@),
            forall|k: int|
                0 <= k < i && expected[k].len() > 0 ==> #[trigger] msg@.params[k] == expected[k],
        decreases params.len() - i,
    {
        if params[i].len() > 0 && !eq(msg.params[i].as_slice(), params[i]) {
            assert(msg@.params[i as int] != expected[i as int]);
            return false;
        }
        i += 1;
    }
    true
}

} // verus!
