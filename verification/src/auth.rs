//! SASL: the providers of authentication and the exchange with them.

use vstd::prelude::*;
use vstd::string::StringSliceAdditionalSpecFns;
use vstd::utf8::valid_utf8;
use crate::buffer::{crlf, line_head, with_param, LineView};
use crate::client::AUTHENTICATE_CHUNK_LEN;
use crate::codec;
use crate::message::{command_name, Command};
use crate::reply::{reply_tags, ReplyBuffer};
use crate::text::{append_str, eq_str, find, position, slice, NUL, PLUS};

verus! {

/// How far a client has come in an exchange.
#[derive(Clone, Copy, Debug, PartialEq, Eq, Structural)]
pub enum State {
    Unauthenticated,
    ChosePlain,
    Authenticated,
}

impl Default for State {
    fn default() -> (r: State)
        ensures
            r == State::Unauthenticated,
    {
        State::Unauthenticated
    }
}

/// Why an exchange fails.
#[derive(Clone, Copy, Debug, PartialEq, Eq, Structural)]
pub enum Error {
    /// The response is no base64 text.
    BadBase64,
    /// The response has not the form that the mechanism asks for.
    BadFormat,
    /// The provider does not accept the credentials.
    InvalidCredentials,
    /// The provider cannot be reached.
    ProviderUnavailable,
    /// The provider does not know the mechanism.
    UnsupportedMechanism,
}

/// A provider of authentication.
pub trait Provider {
    /// Whether the provider can be reached.  If not, `start_auth` and
    /// `next_challenge` fail.
    fn is_available(&self) -> bool;

    /// Appends the mechanisms that the provider knows, parted by commas.
    fn write_mechanisms(&self, buf: &mut Vec<u8>);

    /// Starts an exchange.  The handle that comes back goes into
    /// `next_challenge`; the first challenge, if any, is appended to `next`.
    fn start_auth(&self, mechanism: &[u8], next: &mut Vec<u8>) -> Result<usize, Error>;

    /// Takes the response of the client to the last challenge.  The account
    /// comes back where the client is authenticated; else the next
    /// challenge is appended to `next`.
    fn next_challenge(&self, auth: usize, response: &[u8], next: &mut Vec<u8>) -> Result<
        Option<Vec<u8>>,
        Error,
    >;
}

/// The provider of a server without SASL: it is never available.
pub struct DummyProvider;

impl Provider for DummyProvider {
    fn is_available(&self) -> (r: bool)
        ensures
            !r,
    {
        false
    }

    fn write_mechanisms(&self, buf: &mut Vec<u8>)
        ensures
            final(buf)@ == old(buf)@,
    {
    }

    fn start_auth(&self, mechanism: &[u8], next: &mut Vec<u8>) -> (r: Result<usize, Error>)
        ensures
            r == Err::<usize, Error>(Error::ProviderUnavailable),
            final(next)@ == old(next)@,
    {
        Err(Error::ProviderUnavailable)
    }

    fn next_challenge(&self, auth: usize, response: &[u8], next: &mut Vec<u8>) -> (r: Result<
        Option<Vec<u8>>,
        Error,
    >)
        ensures
            r.is_err(),
            r->Err_0 == Error::ProviderUnavailable,
            final(next)@ == old(next)@,
    {
        Err(Error::ProviderUnavailable)
    }
}

/// A store of credentials that can check a user name and a password, both
/// of them valid UTF-8.
pub trait Plain {
    /// Whether the store can be reached.
    fn ready(&self) -> bool;

    /// `Ok` where the store holds the user with this password.
    fn plain(&self, user: &[u8], pass: &[u8]) -> Result<(), ()>
        requires
            valid_utf8(user@),
            valid_utf8(pass@),
    ;
}

/// The user name and the password of a `PLAIN` response, which has the
/// form `authzid NUL authcid NUL password`: what stands between the first
/// and the second NUL, and what follows the second up to a third or the
/// end.  `None` where the response holds fewer than two NUL.
pub open spec fn plain_fields(response: Seq<u8>) -> Option<(Seq<u8>, Seq<u8>)> {
    let first = position(response, 0, NUL);
    if first >= response.len() {
        None
    } else {
        let second = position(response, first + 1, NUL);
        if second >= response.len() {
            None
        } else {
            let third = position(response, second + 1, NUL);
            Some((response.subrange(first + 1, second), response.subrange(second + 1, third)))
        }
    }
}

/// Parts a `PLAIN` response into user name and password.
pub fn split_plain(response: &[u8]) -> (r: Option<(Vec<u8>, Vec<u8>)>)
    ensures
        match plain_fields(response@) {
            Some((user, pass)) => r.is_some() && r.unwrap().0@ == user && r.unwrap().1@ == pass,
            None => r.is_none(),
        },
{
    let first = find(response, 0, NUL);
    if first >= response.len() {
        return None;
    }
    let second = find(response, first + 1, NUL);
    if second >= response.len() {
        return None;
    }
    let third = find(response, second + 1, NUL);
    Some((slice(response, first + 1, second), slice(response, second + 1, third)))
}

/// Calls `std::str::from_utf8` and says whether it returned `Ok`, which it
/// does for the byte strings that are valid UTF-8 and no others.
#[verifier::external_body]
fn is_utf8(bytes: &[u8]) -> (r: bool)
    ensures
        r == valid_utf8(bytes@),
{
    std::str::from_utf8(bytes).is_ok()
}

/// Whether a `PLAIN` response can be handed to a store: it has its two
/// fields, and both are valid UTF-8.
pub open spec fn plain_well_formed(response: Seq<u8>) -> bool {
    match plain_fields(response) {
        Some((user, pass)) => valid_utf8(user) && valid_utf8(pass),
        None => false,
    }
}

/// What an exchange returns once the store has answered: the account, which
/// is the user name, where the store accepted; else the refusal.
pub fn plain_outcome(user: Vec<u8>, answer: Result<(), ()>) -> (r: Result<Option<Vec<u8>>, Error>)
    ensures
        answer.is_ok() ==> r.is_ok() && r->Ok_0.is_some() && r->Ok_0.unwrap()@ == user@,
        answer.is_err() ==> r.is_err() && r->Err_0 == Error::InvalidCredentials,
{
    match answer {
        Ok(_) => Ok(Some(user)),
        Err(_) => Err(Error::InvalidCredentials),
    }
}

/// The response of a client once its base64 text was decoded: the bytes,
/// or the error where the text was no base64 text.
pub fn decoded_response(decoded: Option<Vec<u8>>) -> (r: Result<Vec<u8>, Error>)
    ensures
        match decoded {
            Some(bytes) => r == Ok::<Vec<u8>, Error>(bytes),
            None => r == Err::<Vec<u8>, Error>(Error::BadBase64),
        },
{
    match decoded {
        Some(bytes) => Ok(bytes),
        None => Err(Error::BadBase64),
    }
}

/// A provider that checks `PLAIN` credentials against a store.
pub struct DbProvider<P: Plain> {
    pub pool: P,
}

impl<P: Plain> DbProvider<P> {
    pub fn new(pool: P) -> (r: DbProvider<P>)
        ensures
            r.pool == pool,
    {
        DbProvider { pool }
    }
}

impl<P: Plain> Provider for DbProvider<P> {
    fn is_available(&self) -> bool {
        self.pool.ready()
    }

    fn write_mechanisms(&self, buf: &mut Vec<u8>)
        ensures
            final(buf)@ == old(buf)@ + "PLAIN".spec_bytes(),
    {
        append_str(buf, "PLAIN");
    }

    /// `PLAIN` is the one mechanism; it sends no challenge.
    fn start_auth(&self, mechanism: &[u8], next: &mut Vec<u8>) -> (r: Result<usize, Error>)
        ensures
            final(next)@ == old(next)@,
            r == (if mechanism@ == "PLAIN".spec_bytes() {
                Ok::<usize, Error>(0)
            } else {
                Err::<usize, Error>(Error::UnsupportedMechanism)
            }),
    {
        if !eq_str(mechanism, "PLAIN") {
            return Err(Error::UnsupportedMechanism);
        }
        Ok(0)
    }

    /// A response that is not well formed is refused with `BadFormat`
    /// before the store is asked; for the others the store decides.
    fn next_challenge(&self, auth: usize, response: &[u8], next: &mut Vec<u8>) -> (r: Result<
        Option<Vec<u8>>,
        Error,
    >)
        ensures
            final(next)@ == old(next)@,
            !plain_well_formed(response@) ==> r.is_err() && r->Err_0 == Error::BadFormat,
            plain_well_formed(response@) ==> match r {
                Ok(account) => account.is_some() && account.unwrap()@ == plain_fields(
                    response@,
                ).unwrap().0,
                Err(e) => e == Error::InvalidCredentials,
            },
    {
        let (user, pass) = match split_plain(response) {
            Some(fields) => fields,
            None => {
                return Err(Error::BadFormat);
            },
        };
        if !is_utf8(user.as_slice()) || !is_utf8(pass.as_slice()) {
            return Err(Error::BadFormat);
        }
        let answer = self.pool.plain(user.as_slice(), pass.as_slice());
        plain_outcome(user, answer)
    }
}

/// Where the server has its accounts from.
#[derive(Clone, Copy, Debug, PartialEq, Eq, Structural)]
pub enum SaslBackend {
    Disabled,
    Database,
}

/// The provider that a server is configured with.
pub enum AnyProvider<P: Plain> {
    Dummy(DummyProvider),
    Database(DbProvider<P>),
}

impl<P: Plain> Provider for AnyProvider<P> {
    fn is_available(&self) -> (r: bool)
        ensures
            self is Dummy ==> !r,
    {
        match self {
            AnyProvider::Dummy(p) => p.is_available(),
            AnyProvider::Database(p) => p.is_available(),
        }
    }

    fn write_mechanisms(&self, buf: &mut Vec<u8>)
        ensures
            final(buf)@ == old(buf)@ + self.mechanisms(),
    {
        match self {
            AnyProvider::Dummy(p) => {
                p.write_mechanisms(buf);
                assert(buf@ =~= old(buf)@ + self.mechanisms());
            },
            AnyProvider::Database(p) => p.write_mechanisms(buf),
        }
    }

    /// Neither provider sends a challenge.
    fn start_auth(&self, mechanism: &[u8], next: &mut Vec<u8>) -> (r: Result<usize, Error>)
        ensures
            final(next)@ == old(next)@,
            r == self.started(mechanism@),
    {
        match self {
            AnyProvider::Dummy(p) => p.start_auth(mechanism, next),
            AnyProvider::Database(p) => p.start_auth(mechanism, next),
        }
    }

    /// The dummy cannot be reached.  The provider that asks a store
    /// refuses a response that is not well formed with `BadFormat`; for the
    /// others its store decides, and the account is the user of the
    /// response.
    fn next_challenge(&self, auth: usize, response: &[u8], next: &mut Vec<u8>) -> (r: Result<
        Option<Vec<u8>>,
        Error,
    >)
        ensures
            final(next)@ == old(next)@,
            self is Dummy ==> r.is_err() && r->Err_0 == Error::ProviderUnavailable,
            self is Database && !plain_well_formed(response@) ==> r.is_err() && r->Err_0
                == Error::BadFormat,
            self is Database && plain_well_formed(response@) ==> match r {
                Ok(account) => account.is_some() && account.unwrap()@ == plain_fields(
                    response@,
                ).unwrap().0,
                Err(e) => e == Error::InvalidCredentials,
            },
    {
        match self {
            AnyProvider::Dummy(p) => p.next_challenge(auth, response, next),
            AnyProvider::Database(p) => p.next_challenge(auth, response, next),
        }
    }
}

impl<P: Plain> AnyProvider<P> {
    /// The mechanisms that the provider knows, parted by commas: none for
    /// the dummy, `PLAIN` for the one that asks a store.
    pub open spec fn mechanisms(&self) -> Seq<u8> {
        match self {
            AnyProvider::Dummy(_) => Seq::<u8>::empty(),
            AnyProvider::Database(_) => "PLAIN".spec_bytes(),
        }
    }

    /// What starting an exchange gives: the dummy cannot be reached, and
    /// the provider that asks a store knows `PLAIN` alone.
    pub open spec fn started(&self, mechanism: Seq<u8>) -> Result<usize, Error> {
        match self {
            AnyProvider::Dummy(_) => Err(Error::ProviderUnavailable),
            AnyProvider::Database(_) => if mechanism == "PLAIN".spec_bytes() {
                Ok(0)
            } else {
                Err(Error::UnsupportedMechanism)
            },
        }
    }
}

/// The provider for a backend: the dummy where the server has no accounts,
/// else the one that asks `store`.  `None` where the backend is a database
/// and no store is given.
pub fn choose_provider<P: Plain>(backend: SaslBackend, store: Option<P>) -> (r: Option<
    AnyProvider<P>,
>)
    ensures
        backend == SaslBackend::Disabled ==> r.is_some() && r.unwrap() is Dummy,
        backend == SaslBackend::Database ==> (r.is_some() == store.is_some()),
        backend == SaslBackend::Database && store.is_some() ==> r.unwrap() is Database
            && r.unwrap()->Database_0.pool == store.unwrap(),
{
    match backend {
        SaslBackend::Disabled => Some(AnyProvider::Dummy(DummyProvider)),
        SaslBackend::Database => match store {
            Some(pool) => Some(AnyProvider::Database(DbProvider::new(pool))),
            None => None,
        },
    }
}

/// The payloads in which a base64 text is sent, from `i` on: pieces of 400
/// bytes, the last one shorter; and `+` after them where the last piece is
/// a full one, or there is none.
pub open spec fn chunks(text: Seq<u8>, i: int) -> Seq<Seq<u8>>
    decreases text.len() - i,
{
    if i < 0 || i >= text.len() {
        if text.len() % (AUTHENTICATE_CHUNK_LEN as nat) == 0 {
            seq![seq![PLUS]]
        } else {
            Seq::<Seq<u8>>::empty()
        }
    } else {
        let end = if text.len() < i + AUTHENTICATE_CHUNK_LEN {
            text.len() as int
        } else {
            i + AUTHENTICATE_CHUNK_LEN
        };
        seq![text.subrange(i, end)] + chunks(text, end)
    }
}

/// The line that carries one payload to the client.
pub open spec fn auth_line(rb: &ReplyBuffer, payload: Seq<u8>) -> LineView {
    LineView {
        tags: reply_tags(rb.label@, rb.batch@),
        body: with_param(line_head(rb.domain@, command_name(Command::Authenticate)), payload)
            + crlf(),
    }
}

/// The lines that carry a list of payloads.
pub open spec fn auth_lines(rb: &ReplyBuffer, payloads: Seq<Seq<u8>>) -> Seq<LineView> {
    Seq::new(payloads.len(), |i: int| auth_line(rb, payloads[i]))
}

fn write_payload(rb: &mut ReplyBuffer, payload: &[u8])
    requires
        old(rb).wf(),
    ensures
        final(rb).wf(),
        old(rb).extended_by(final(rb)),
        final(rb).staged() == old(rb).staged().push(auth_line(old(rb), payload@)),
{
    let name = Command::Authenticate.name();
    let none: Vec<u8> = Vec::new();
    let msg = rb.message(none.as_slice(), name.as_slice()).param(payload);
    rb.push(msg);
}

/// Stages the lines that carry a base64 text to the client.
pub fn write_chunks(rb: &mut ReplyBuffer, encoded: &[u8])
    requires
        old(rb).wf(),
    ensures
        final(rb).wf(),
        old(rb).extended_by(final(rb)),
        final(rb).staged() == old(rb).staged() + auth_lines(old(rb), chunks(encoded@, 0)),
{
    let mut plus: Vec<u8> = Vec::new();
    plus.push(PLUS);
    assert(plus@ =~= seq![PLUS]);
    let mut i: usize = 0;
    let ghost all = chunks(encoded@, 0);
    let ghost mut done: Seq<Seq<u8>> = Seq::empty();
    assert(done + chunks(encoded@, 0) =~= all);
    assert(rb.staged() =~= old(rb).staged() + auth_lines(old(rb), done));
    assert(rb.staged().subrange(0, rb.staged().len() as int) =~= rb.staged());
    while i < encoded.len()
        invariant
            i <= encoded.len(),
            rb.wf(),
            old(rb).extended_by(rb),
            plus@ == seq![PLUS],
            all == chunks(encoded@, 0),
            done + chunks(encoded@, i as int) == all,
            rb.staged() == old(rb).staged() + auth_lines(old(rb), done),
        decreases encoded.len() - i,
    {
        let max = if encoded.len() - i < AUTHENTICATE_CHUNK_LEN {
            encoded.len()
        } else {
            i + AUTHENTICATE_CHUNK_LEN
        };
        let chunk = slice(encoded, i, max);
        let ghost before = *rb;
        write_payload(rb, chunk.as_slice());
        proof {
            let next = done.push(chunk@);
            assert(auth_line(&before, chunk@) == auth_line(old(rb), chunk@));
            assert(auth_lines(old(rb), next) =~= auth_lines(old(rb), done).push(
                auth_line(old(rb), chunk@),
            ));
            assert(rb.staged() =~= old(rb).staged() + auth_lines(old(rb), next));
            assert(next + chunks(encoded@, max as int) =~= done + chunks(encoded@, i as int));
            assert(rb.staged().subrange(0, old(rb).staged().len() as int) =~= old(rb).staged());
            done = next;
        }
        i = max;
    }
    if encoded.len() % AUTHENTICATE_CHUNK_LEN == 0 {
        let ghost before = *rb;
        write_payload(rb, plus.as_slice());
        proof {
            let next = done.push(seq![PLUS]);
            assert(auth_line(&before, seq![PLUS]) == auth_line(old(rb), seq![PLUS]));
            assert(auth_lines(old(rb), next) =~= auth_lines(old(rb), done).push(
                auth_line(old(rb), seq![PLUS]),
            ));
            assert(next =~= all);
            assert(rb.staged() =~= old(rb).staged() + auth_lines(old(rb), all));
            assert(rb.staged().subrange(0, old(rb).staged().len() as int) =~= old(rb).staged());
        }
    } else {
        assert(done =~= all);
    }
}

/// The payloads in which a challenge is sent: `+` for an empty one, else
/// the pieces of its base64 text.
pub open spec fn challenge_payloads(challenge: Seq<u8>) -> Seq<Seq<u8>> {
    if challenge.len() == 0 {
        seq![seq![PLUS]]
    } else {
        chunks(codec::base64_encoded(challenge), 0)
    }
}

/// Stages the lines that carry a challenge to the client.
pub fn write_buffer(rb: &mut ReplyBuffer, buf: &[u8])
    requires
        old(rb).wf(),
        buf@.len() <= codec::BASE64_INPUT_MAX,
    ensures
        final(rb).wf(),
        old(rb).extended_by(final(rb)),
        final(rb).staged() == old(rb).staged() + auth_lines(old(rb), challenge_payloads(buf@)),
{
    if buf.len() == 0 {
        let mut plus: Vec<u8> = Vec::new();
        plus.push(PLUS);
        assert(plus@ =~= seq![PLUS]);
        write_payload(rb, plus.as_slice());
        assert(auth_lines(old(rb), challenge_payloads(buf@)) =~= seq![
            auth_line(old(rb), seq![PLUS]),
        ]);
        assert(rb.staged() =~= old(rb).staged() + auth_lines(old(rb), challenge_payloads(buf@)));
        return ;
    }
    let encoded = codec::encode(buf);
    write_chunks(rb, encoded.as_slice());
}

} // verus!
