//! The commands of the IRCv3 extensions: capabilities, SASL, `SETNAME`
//! and `TAGMSG`.

use vstd::prelude::*;
use vstd::string::StringSliceAdditionalSpecFns;
use crate::auth;
use crate::auth::Provider;
use crate::client::{all_supported, cap_requests, full_name, ls_common, with_version, ClientView};
use crate::codec;
use crate::lines;
use crate::message::{command_name, Command};
use crate::reply::ReplyBuffer;
use crate::rpl;
use crate::state::rfc2812::HandlerResult;
use crate::state::send::{out_extended, plain_line, Audience};
use crate::state::{delivery_views, CommandContext, Delivery, StateInner};
use crate::table::{table_get, table_get_mut};
use crate::text::{append, append_str, eq_str, from_str, to_vec, EQUALS, STAR};

verus! {

/// Whether a `CAP` command succeeds: `END`, `LIST` and `LS` do; `REQ`
/// does where every word names a capability that the server offers; no
/// other sub-command does.
pub open spec fn cap_succeeds(sub: Seq<u8>, argument: Seq<u8>) -> bool {
    if sub == "END".spec_bytes() || sub == "LIST".spec_bytes() || sub == "LS".spec_bytes() {
        true
    } else if sub == "REQ".spec_bytes() {
        all_supported(cap_requests(argument, 0))
    } else {
        false
    }
}

/// A reply to a `CAP` command: the sub-command and a text.
pub open spec fn cap_reply(rb: &ReplyBuffer, sub: Seq<u8>, text: Seq<u8>) -> crate::buffer::LineView {
    crate::buffer::LineView {
        tags: crate::reply::reply_tags(rb.label@, rb.batch@),
        body: crate::buffer::with_trailing(
            crate::buffer::with_param(
                crate::buffer::with_param(
                    crate::buffer::line_head(rb.domain@, command_name(Command::Cap)),
                    rb.nick@,
                ),
                sub,
            ),
            text,
        ) + crate::buffer::crlf(),
    }
}

/// The capabilities that the server offers: the common ones, and `sasl`
/// where its provider is available, with the mechanisms of the provider
/// for a client that asks in the form of version 302.
pub open spec fn ls_text(available: bool, v302: bool, mechanisms: Seq<u8>) -> Seq<u8> {
    crate::client::LS_COMMON.spec_bytes() + (if available {
        " sasl".spec_bytes() + (if v302 {
            seq![EQUALS] + mechanisms
        } else {
            Seq::<u8>::empty()
        })
    } else {
        Seq::<u8>::empty()
    })
}

impl<P: Provider> StateInner<P> {
    /// `TAGMSG`: a message that is made of tags only.
    pub fn cmd_tagmsg(
        &mut self,
        ctx: &CommandContext,
        rb: &mut ReplyBuffer,
        out: &mut Vec<Delivery>,
        target: &[u8],
    ) -> (r: HandlerResult)
        requires
            old(self).wf(),
            old(self).has_client(ctx.id),
            old(rb).wf(),
        ensures
            final(self).wf(),
            final(rb).wf(),
            old(rb).extended_by(final(rb)),
            out_extended(old(out)@, final(out)@),
            Self::message_outcome(
                old(self),
                final(self),
                old(rb),
                final(rb),
                old(out)@,
                final(out)@,
                ctx,
                Command::TagMsg,
                target@,
                None,
                r,
            ),
    {
        self.send_query_or_channel_msg(ctx, rb, out, Command::TagMsg, target, None)
    }

    /// `CAP LIST`: the capabilities that the client has.
    fn cmd_cap_list(&self, ctx: &CommandContext, rb: &mut ReplyBuffer) -> (r: HandlerResult)
        requires
            old(rb).wf(),
            self.has_client(ctx.id),
        ensures
            final(rb).wf(),
            old(rb).extended_by(final(rb)),
            r.is_ok(),
            final(rb).staged() == old(rb).staged().push(
                cap_reply(
                    old(rb),
                    "LIST".spec_bytes(),
                    self.client(ctx.id).capabilities.enabled_names(0),
                ),
            ),
    {
        let mut names: Vec<u8> = Vec::new();
        match table_get(&self.clients, ctx.id) {
            Some(client) => client.capabilities.write_enabled(&mut names),
            None => {},
        }
        assert(names@ =~= self.client(ctx.id).capabilities.enabled_names(0));
        let command = Command::Cap.name();
        let msg = rb.reply_command(command.as_slice()).param("LIST".as_bytes()).trailing_param(
            names.as_slice(),
        );
        rb.push(msg);
        Ok(())
    }

    /// Notes that the client asks in the form of version 302, if it does,
    /// and returns whether it has ever done so.
    fn note_version(&mut self, id: usize, newer: bool) -> (v302: bool)
        requires
            old(self).wf(),
            old(self).has_client(id),
        ensures
            final(self).wf(),
            final(self).has_client(id),
            final(self).same_but_clients(old(self)),
            v302 == (old(self).client(id).capabilities.v302 || newer),
            final(self).clients() == old(self).clients().insert(id, final(self).clients()[id]),
            final(self).client(id) == (ClientView {
                capabilities: with_version(old(self).client(id).capabilities, v302),
                ..old(self).client(id)
            }),
    {
        let ghost before = *self;
        let client = table_get_mut(&mut self.clients, id);
        let v302 = client.capabilities.v302 || newer;
        client.set_version(v302);
        proof {
            Self::lemma_client_changed(&before, self, id);
        }
        v302
    }

    /// The capabilities that the server offers to a client.  Whether
    /// `sasl` is among them, and with which mechanisms, is for the provider
    /// of authentication to say.
    fn offered(&self, v302: bool) -> (r: (Vec<u8>, Ghost<bool>, Ghost<Seq<u8>>))
        ensures
            r.0@ == ls_text(r.1@, v302, r.2@),
    {
        let mut text = from_str(ls_common());
        let available = self.auth_provider.is_available();
        let mut mechanisms: Vec<u8> = Vec::new();
        if available {
            append_str(&mut text, " sasl");
            if v302 {
                self.auth_provider.write_mechanisms(&mut mechanisms);
                text.push(EQUALS);
                append(&mut text, mechanisms.as_slice());
            }
        }
        assert(text@ =~= ls_text(available, v302, mechanisms@));
        (text, Ghost(available), Ghost(mechanisms@))
    }

    /// `CAP LS`: the capabilities that the server offers; `sasl` among
    /// them where its provider is available, with the mechanisms for a
    /// client that asks in the form of version 302.
    fn cmd_cap_ls(&mut self, ctx: &CommandContext, rb: &mut ReplyBuffer, version: &[u8]) -> (r:
        HandlerResult)
        requires
            old(self).wf(),
            old(self).has_client(ctx.id),
            old(rb).wf(),
        ensures
            final(self).wf(),
            final(rb).wf(),
            old(rb).extended_by(final(rb)),
            final(self).has_client(ctx.id),
            final(self).same_but_clients(old(self)),
            r.is_ok(),
            final(self).clients() == old(self).clients().insert(
                ctx.id,
                final(self).clients()[ctx.id],
            ),
            final(self).client(ctx.id) == (ClientView {
                capabilities: with_version(
                    old(self).client(ctx.id).capabilities,
                    old(self).client(ctx.id).capabilities.v302 || version@ == "302".spec_bytes(),
                ),
                ..old(self).client(ctx.id)
            }),
            exists|available: bool, mechanisms: Seq<u8>|
                final(rb).staged() == old(rb).staged().push(
                    cap_reply(
                        old(rb),
                        "LS".spec_bytes(),
                        #[trigger] ls_text(
                            available,
                            final(self).client(ctx.id).capabilities.v302,
                            mechanisms,
                        ),
                    ),
                ),
    {
        let v302 = self.note_version(ctx.id, eq_str(version, "302"));
        let (text, Ghost(available), Ghost(mechanisms)) = self.offered(v302);
        let command = Command::Cap.name();
        let msg = rb.reply_command(command.as_slice()).param("LS".as_bytes()).trailing_param(
            text.as_slice(),
        );
        rb.push(msg);
        assert(self.client(ctx.id).capabilities.v302 == v302);
        assert(rb.staged() == old(rb).staged().push(
            cap_reply(
                old(rb),
                "LS".spec_bytes(),
                ls_text(available, self.client(ctx.id).capabilities.v302, mechanisms),
            ),
        ));
        Ok(())
    }

    /// `CAP REQ`: all that is asked for, or nothing.  Where every word
    /// names a capability that the server offers, all are granted and the
    /// request is acknowledged; else nothing changes and the request is
    /// refused.
    pub fn cmd_cap_req(&mut self, ctx: &CommandContext, rb: &mut ReplyBuffer, capabilities: &[u8]) -> (r:
        HandlerResult)
        requires
            old(self).wf(),
            old(self).has_client(ctx.id),
            old(rb).wf(),
        ensures
            final(self).wf(),
            final(rb).wf(),
            old(rb).extended_by(final(rb)),
            final(self).has_client(ctx.id),
            final(self).same_but_clients(old(self)),
            r.is_ok() == all_supported(cap_requests(capabilities@, 0)),
            r.is_ok() ==> final(self).clients() == old(self).clients().insert(
                ctx.id,
                final(self).clients()[ctx.id],
            ) && final(self).client(ctx.id) == (ClientView {
                capabilities: old(self).client(ctx.id).capabilities.granted(
                    cap_requests(capabilities@, 0),
                ),
                ..old(self).client(ctx.id)
            }),
            r.is_err() ==> final(self).clients == old(self).clients,
            final(rb).staged() == old(rb).staged().push(
                cap_reply(
                    old(rb),
                    if r.is_ok() {
                        "ACK".spec_bytes()
                    } else {
                        "NAK".spec_bytes()
                    },
                    capabilities@,
                ),
            ),
    {
        let command = Command::Cap.name();
        if !crate::client::are_supported(capabilities) {
            let msg = rb.reply_command(command.as_slice()).param("NAK".as_bytes()).trailing_param(
                capabilities,
            );
            rb.push(msg);
            return Err(());
        }
        let ghost before = *self;
        let client = table_get_mut(&mut self.clients, ctx.id);
        client.capabilities.update(capabilities);
        proof {
            Self::lemma_client_changed(&before, self, ctx.id);
        }
        let msg = rb.reply_command(command.as_slice()).param("ACK".as_bytes()).trailing_param(
            capabilities,
        );
        rb.push(msg);
        Ok(())
    }

    /// What `CAP` does to the state and to the replies; `r` is what its
    /// handler returns.
    pub open spec fn cap_outcome(
        before: &Self,
        after: &Self,
        ctx: &CommandContext,
        rb_before: &ReplyBuffer,
        rb_after: &ReplyBuffer,
        sub: Seq<u8>,
        argument: Seq<u8>,
        r: Result<(), ()>,
    ) -> bool {
        &&& (after.has_client(ctx.id))
        &&& (after.same_but_clients(before))
        &&& (after.client(ctx.id).nick == before.client(ctx.id).nick)
        &&& (after.client(ctx.id).user == before.client(ctx.id).user)
        &&& (after.client(ctx.id).real == before.client(ctx.id).real)
        &&& (after.client(ctx.id).state == before.client(ctx.id).state)
        &&& (after.client(ctx.id).auth_id == before.client(ctx.id).auth_id)
        &&& (r.is_ok() == cap_succeeds(sub, argument))
        &&& (if sub == "END".spec_bytes() {
                r.is_ok() && after.clients == before.clients && rb_after.staged() == rb_before.staged()
            } else if sub == "LIST".spec_bytes() {
                after.clients == before.clients && rb_after.staged() == rb_before.staged().push(
                    cap_reply(
                        rb_before,
                        "LIST".spec_bytes(),
                        before.client(ctx.id).capabilities.enabled_names(0),
                    ),
                )
            } else if sub == "LS".spec_bytes() {
                after.client(ctx.id) == (ClientView {
                    capabilities: with_version(
                        before.client(ctx.id).capabilities,
                        before.client(ctx.id).capabilities.v302 || argument
                            == "302".spec_bytes(),
                    ),
                    ..before.client(ctx.id)
                }) && exists|available: bool, mechanisms: Seq<u8>|
                    rb_after.staged() == rb_before.staged().push(
                        cap_reply(
                            rb_before,
                            "LS".spec_bytes(),
                            #[trigger] ls_text(
                                available,
                                after.client(ctx.id).capabilities.v302,
                                mechanisms,
                            ),
                        ),
                    )
            } else if sub == "REQ".spec_bytes() {
                rb_after.staged() == rb_before.staged().push(
                    cap_reply(
                        rb_before,
                        if r.is_ok() {
                            "ACK".spec_bytes()
                        } else {
                            "NAK".spec_bytes()
                        },
                        argument,
                    ),
                ) && (r.is_err() ==> after.clients == before.clients) && (r.is_ok()
                    ==> after.client(ctx.id) == (ClientView {
                    capabilities: before.client(ctx.id).capabilities.granted(
                        cap_requests(argument, 0),
                    ),
                    ..before.client(ctx.id)
                }))
            } else {
                r.is_err() && after.clients == before.clients && rb_after.staged()
                    == rb_before.staged().push(
                    rb_before.numeric(
                        rpl::ERR_INVALIDCAPCMD,
                        seq![sub],
                        lines::UNKNOWN_COMMAND.spec_bytes(),
                    ),
                )
            })
    }

    /// `CAP`: the negotiation of capabilities.
    pub fn cmd_cap(
        &mut self,
        ctx: &CommandContext,
        rb: &mut ReplyBuffer,
        sub: &[u8],
        argument: &[u8],
    ) -> (r: HandlerResult)
        requires
            old(self).wf(),
            old(self).has_client(ctx.id),
            old(rb).wf(),
        ensures
            final(self).wf(),
            final(rb).wf(),
            old(rb).extended_by(final(rb)),
            Self::cap_outcome(old(self), final(self), ctx, old(rb), final(rb), sub@, argument@, r),
    {
        if eq_str(sub, "END") {
            assert(rb.staged() =~= old(rb).staged());
            Ok(())
        } else if eq_str(sub, "LIST") {
            self.cmd_cap_list(ctx, rb)
        } else if eq_str(sub, "LS") {
            self.cmd_cap_ls(ctx, rb, argument)
        } else if eq_str(sub, "REQ") {
            self.cmd_cap_req(ctx, rb, argument)
        } else {
            rb.reply1(rpl::ERR_INVALIDCAPCMD, sub, lines::UNKNOWN_COMMAND.as_bytes());
            Err(())
        }
    }

    /// The replies that tell a client that it is logged in.
    pub open spec fn login_replies(rb: &ReplyBuffer, c: ClientView, account: Seq<u8>) -> Seq<
        crate::buffer::LineView,
    > {
        seq![
            rb.numeric(
                rpl::LOGGEDIN,
                seq![full_name(c), account],
                lines::LOGGED_IN.spec_bytes() + account,
            ),
            rb.numeric(rpl::SASLSUCCESS, seq![], lines::SASL_SUCCESSFUL.spec_bytes()),
        ]
    }

    /// The reply that tells a client that its exchange has failed.
    pub open spec fn failure_reply(rb: &ReplyBuffer) -> crate::buffer::LineView {
        rb.numeric(rpl::ERR_SASLFAIL, seq![], lines::SASL_FAILED.spec_bytes())
    }

    /// A client with its exchange forgotten.
    pub open spec fn without_exchange(c: ClientView) -> ClientView {
        ClientView { auth_id: None, auth_buffer: Seq::<u8>::empty(), ..c }
    }

    /// Ends an exchange in failure: the client is told, and the exchange
    /// is forgotten.
    fn auth_failed(&mut self, id: usize, rb: &mut ReplyBuffer)
        requires
            old(self).wf(),
            old(self).has_client(id),
            old(rb).wf(),
        ensures
            final(self).wf(),
            final(rb).wf(),
            old(rb).extended_by(final(rb)),
            final(self).has_client(id),
            final(self).same_but_clients(old(self)),
            final(self).clients() == old(self).clients().insert(id, final(self).clients()[id]),
            final(self).client(id) == Self::without_exchange(old(self).client(id)),
            final(rb).staged() == old(rb).staged().push(Self::failure_reply(old(rb))),
    {
        let ghost before = *self;
        let client = table_get_mut(&mut self.clients, id);
        client.auth_reset();
        proof {
            Self::lemma_client_changed(&before, self, id);
        }
        rb.reply0(rpl::ERR_SASLFAIL, lines::SASL_FAILED.as_bytes());
    }

    /// What dealing with the answer of the provider to a response does.
    /// With an account, the client is logged in under it, its exchange is
    /// forgotten, it is told so, and the clients that share a channel with
    /// it and have asked to be told of accounts are told.  With no account
    /// yet, the next challenge is sent; one that is too long to be encoded
    /// fails the exchange.  With an error, the exchange fails.
    pub open spec fn auth_finished(
        before: &Self,
        after: &Self,
        rb_before: &ReplyBuffer,
        rb_after: &ReplyBuffer,
        out_before: Seq<Delivery>,
        out_after: Seq<Delivery>,
        id: usize,
        answer: Result<Option<Vec<u8>>, auth::Error>,
        challenge: Seq<u8>,
        r: HandlerResult,
    ) -> bool {
        let c = before.client(id);
        &&& after.has_client(id)
        &&& after.same_but_clients(before)
        &&& after.clients() == before.clients().insert(id, after.clients()[id])
        &&& match answer {
            Ok(Some(account)) => {
                &&& r.is_ok()
                &&& after.client(id) == (ClientView {
                    identity: Some(account@),
                    ..Self::without_exchange(c)
                })
                &&& rb_after.staged() == rb_before.staged() + Self::login_replies(
                    rb_before,
                    c,
                    account@,
                )
                &&& delivery_views(out_after) == delivery_views(out_before)
                    + crate::state::send::sent_to(
                    after.clients(),
                    crate::state::send::notified(
                        after.clients(),
                        crate::state::send::sharing(
                            crate::state::base::entry_views(after.channels@),
                            id,
                        ),
                        id,
                        Audience::AccountNotify,
                    ),
                    crate::state::send::plain(
                        full_name(c),
                        "ACCOUNT".spec_bytes(),
                        seq![account@],
                        None,
                    ),
                )
            },
            Ok(None) => if challenge.len() <= codec::BASE64_INPUT_MAX {
                &&& r.is_ok()
                &&& after.client(id) == c
                &&& rb_after.staged() == rb_before.staged() + auth::auth_lines(
                    rb_before,
                    auth::challenge_payloads(challenge),
                )
                &&& delivery_views(out_after) == delivery_views(out_before)
            } else {
                &&& r.is_err()
                &&& after.client(id) == Self::without_exchange(c)
                &&& rb_after.staged() == rb_before.staged().push(Self::failure_reply(rb_before))
                &&& delivery_views(out_after) == delivery_views(out_before)
            },
            Err(_) => {
                &&& r.is_err()
                &&& after.client(id) == Self::without_exchange(c)
                &&& rb_after.staged() == rb_before.staged().push(Self::failure_reply(rb_before))
                &&& delivery_views(out_after) == delivery_views(out_before)
            },
        }
    }

    /// Deals with the answer of the provider to a response, as
    /// `auth_finished` says.
    pub fn finish_auth(
        &mut self,
        ctx: &CommandContext,
        rb: &mut ReplyBuffer,
        out: &mut Vec<Delivery>,
        answer: Result<Option<Vec<u8>>, auth::Error>,
        challenge: &[u8],
    ) -> (r: HandlerResult)
        requires
            old(self).wf(),
            old(self).has_client(ctx.id),
            old(rb).wf(),
        ensures
            final(self).wf(),
            final(rb).wf(),
            old(rb).extended_by(final(rb)),
            out_extended(old(out)@, final(out)@),
            Self::auth_finished(
                old(self),
                final(self),
                old(rb),
                final(rb),
                old(out)@,
                final(out)@,
                ctx.id,
                answer,
                challenge@,
                r,
            ),
    {
        match answer {
            Ok(Some(account)) => {
                let full = match table_get(&self.clients, ctx.id) {
                    Some(client) => client.full_name(),
                    None => Vec::new(),
                };
                let mut text = from_str(lines::LOGGED_IN);
                append(&mut text, account.as_slice());
                rb.reply2(rpl::LOGGEDIN, full.as_slice(), account.as_slice(), text.as_slice());
                rb.reply0(rpl::SASLSUCCESS, lines::SASL_SUCCESSFUL.as_bytes());
                let mut params: Vec<Vec<u8>> = Vec::new();
                params.push(to_vec(account.as_slice()));
                assert(crate::text::views(params@) =~= seq![account@]);
                let line = plain_line(full.as_slice(), "ACCOUNT".as_bytes(), &params, None);
                let ghost before = *self;
                let client = table_get_mut(&mut self.clients, ctx.id);
                client.identity = Some(account);
                client.auth_reset();
                proof {
                    Self::lemma_client_changed(&before, self, ctx.id);
                    assert(rb.staged() =~= old(rb).staged() + Self::login_replies(
                        old(rb),
                        old(self).client(ctx.id),
                        account@,
                    ));
                }
                self.send_notification(out, ctx.id, &line, Audience::AccountNotify);
                Ok(())
            },
            Ok(None) => {
                if challenge.len() > codec::BASE64_INPUT_MAX {
                    self.auth_failed(ctx.id, rb);
                    return Err(());
                }
                auth::write_buffer(rb, challenge);
                proof {
                    assert(self.clients() =~= old(self).clients().insert(
                        ctx.id,
                        self.clients()[ctx.id],
                    ));
                }
                Ok(())
            },
            Err(_) => {
                self.auth_failed(ctx.id, rb);
                Err(())
            },
        }
    }

    /// Goes on with an exchange once the response of the client is
    /// decoded.  A response that is no base64 text fails the exchange.
    /// The decoded one is handed to the provider of authentication, and
    /// its answer is dealt with as `auth_finished` says: whatever the
    /// provider answers, one of the outcomes that are described there
    /// follows.
    pub fn continue_auth(
        &mut self,
        auth: usize,
        ctx: &CommandContext,
        rb: &mut ReplyBuffer,
        out: &mut Vec<Delivery>,
        decoded: Option<Vec<u8>>,
    ) -> (r: HandlerResult)
        requires
            old(self).wf(),
            old(self).has_client(ctx.id),
            old(rb).wf(),
        ensures
            final(self).wf(),
            final(rb).wf(),
            old(rb).extended_by(final(rb)),
            out_extended(old(out)@, final(out)@),
            final(self).has_client(ctx.id),
            final(self).same_but_clients(old(self)),
            match decoded {
                None => Self::auth_finished(
                    old(self),
                    final(self),
                    old(rb),
                    final(rb),
                    old(out)@,
                    final(out)@,
                    ctx.id,
                    Err(auth::Error::BadBase64),
                    Seq::<u8>::empty(),
                    r,
                ),
                Some(_) => exists|answer: Result<Option<Vec<u8>>, auth::Error>, challenge: Seq<u8>|
                    Self::auth_finished(
                        old(self),
                        final(self),
                        old(rb),
                        final(rb),
                        old(out)@,
                        final(out)@,
                        ctx.id,
                        answer,
                        challenge,
                        r,
                    ),
            },
    {
        let none: Vec<u8> = Vec::new();
        assert(none@ =~= Seq::<u8>::empty());
        let response = match auth::decoded_response(decoded) {
            Ok(response) => response,
            Err(e) => {
                return self.finish_auth(ctx, rb, out, Err(e), none.as_slice());
            },
        };
        let mut challenge: Vec<u8> = Vec::new();
        let answer = self.auth_provider.next_challenge(auth, response.as_slice(), &mut challenge);
        self.finish_auth(ctx, rb, out, answer, challenge.as_slice())
    }

    /// What dealing with the answer of the provider to the choice of a
    /// mechanism does.  With a handle, the exchange is under way and the
    /// first challenge is sent; a challenge that is too long to be encoded
    /// fails instead.  Where the provider is unavailable the exchange
    /// fails; where it does not know the mechanism, the client is told the
    /// mechanisms that it knows.
    pub open spec fn auth_begun(
        before: &Self,
        after: &Self,
        rb_before: &ReplyBuffer,
        rb_after: &ReplyBuffer,
        id: usize,
        started: Result<usize, auth::Error>,
        challenge: Seq<u8>,
        mechanisms: Seq<u8>,
        r: HandlerResult,
    ) -> bool {
        let c = before.client(id);
        &&& after.has_client(id)
        &&& after.same_but_clients(before)
        &&& after.clients() == before.clients().insert(id, after.clients()[id])
        &&& match started {
            Ok(handle) => if challenge.len() <= codec::BASE64_INPUT_MAX {
                &&& r.is_ok()
                &&& after.client(id) == (ClientView { auth_id: Some(handle), ..c })
                &&& rb_after.staged() == rb_before.staged() + auth::auth_lines(
                    rb_before,
                    auth::challenge_payloads(challenge),
                )
            } else {
                &&& r.is_err()
                &&& after.client(id) == c
                &&& rb_after.staged() == rb_before.staged().push(Self::failure_reply(rb_before))
            },
            Err(e) => {
                &&& r.is_err()
                &&& after.client(id) == c
                &&& rb_after.staged() == rb_before.staged().push(
                    if e == auth::Error::ProviderUnavailable {
                        Self::failure_reply(rb_before)
                    } else {
                        rb_before.numeric(
                            rpl::SASLMECHS,
                            seq![mechanisms],
                            lines::SASL_MECHS.spec_bytes(),
                        )
                    },
                )
            },
        }
    }

    /// Deals with the answer of the provider to the choice of a
    /// mechanism, as `auth_begun` says.  `mechanisms` are the mechanisms
    /// that the provider knows.
    pub fn begin_auth(
        &mut self,
        ctx: &CommandContext,
        rb: &mut ReplyBuffer,
        started: Result<usize, auth::Error>,
        challenge: &[u8],
        mechanisms: &[u8],
    ) -> (r: HandlerResult)
        requires
            old(self).wf(),
            old(self).has_client(ctx.id),
            old(rb).wf(),
        ensures
            final(self).wf(),
            final(rb).wf(),
            old(rb).extended_by(final(rb)),
            Self::auth_begun(
                old(self),
                final(self),
                old(rb),
                final(rb),
                ctx.id,
                started,
                challenge@,
                mechanisms@,
                r,
            ),
    {
        proof {
            assert(self.clients() =~= self.clients().insert(ctx.id, self.clients()[ctx.id]));
        }
        match started {
            Ok(handle) => {
                if challenge.len() > codec::BASE64_INPUT_MAX {
                    rb.reply0(rpl::ERR_SASLFAIL, lines::SASL_FAILED.as_bytes());
                    return Err(());
                }
                auth::write_buffer(rb, challenge);
                let ghost before = *self;
                let client = table_get_mut(&mut self.clients, ctx.id);
                client.auth_id = Some(handle);
                proof {
                    Self::lemma_client_changed(&before, self, ctx.id);
                }
                Ok(())
            },
            Err(auth::Error::ProviderUnavailable) => {
                rb.reply0(rpl::ERR_SASLFAIL, lines::SASL_FAILED.as_bytes());
                Err(())
            },
            Err(_) => {
                rb.reply1(rpl::SASLMECHS, mechanisms, lines::SASL_MECHS.as_bytes());
                Err(())
            },
        }
    }

    /// What an `AUTHENTICATE` does where the provider has no say.  A
    /// client that is logged in is refused.  In an exchange, `*` gives it
    /// up; a payload that makes the response too long is refused; a
    /// payload of the full length is kept, and more is waited for.
    /// `None` where the provider is asked: for the choice of a mechanism,
    /// and for a response that is complete.
    pub open spec fn auth_step(c: ClientView, payload: Seq<u8>) -> Option<
        (ClientView, Option<u16>, bool),
    > {
        if c.identity.is_some() {
            Some((Self::without_exchange(c), Some(rpl::ERR_SASLALREADY), false))
        } else if c.auth_id.is_none() {
            None
        } else if payload == seq![STAR] {
            Some((Self::without_exchange(c), Some(rpl::ERR_SASLABORTED), true))
        } else {
            match crate::client::pushed(c.auth_buffer, payload) {
                None => Some((c, Some(rpl::ERR_SASLTOOLONG), false)),
                Some(buffer) => if payload.len() < crate::client::AUTHENTICATE_CHUNK_LEN {
                    None
                } else {
                    Some((ClientView { auth_buffer: buffer, ..c }, None, true))
                },
            }
        }
    }

    /// The text that goes with a numeric reply of an exchange.
    pub open spec fn auth_text(code: u16) -> Seq<u8> {
        if code == rpl::ERR_SASLALREADY {
            lines::SASL_ALREADY.spec_bytes()
        } else if code == rpl::ERR_SASLABORTED {
            lines::SASL_ABORTED.spec_bytes()
        } else {
            lines::SASL_TOO_LONG.spec_bytes()
        }
    }

    /// What `AUTHENTICATE` does to the state, to the replies and to the
    /// deliveries; `r` is what its handler returns.
    pub open spec fn authenticate_outcome(
        before: &Self,
        after: &Self,
        ctx: &CommandContext,
        rb_before: &ReplyBuffer,
        rb_after: &ReplyBuffer,
        out_before: Seq<Delivery>,
        out_after: Seq<Delivery>,
        payload: Seq<u8>,
        r: Result<(), ()>,
    ) -> bool {
        &&& (after.has_client(ctx.id))
        &&& (after.same_but_clients(before))
        &&& (after.clients() == before.clients().insert(
                ctx.id,
                after.clients()[ctx.id],
            ))
        &&& (after.client(ctx.id).nick == before.client(ctx.id).nick)
        &&& (after.client(ctx.id).user == before.client(ctx.id).user)
        &&& (after.client(ctx.id).real == before.client(ctx.id).real)
        &&& (after.client(ctx.id).state == before.client(ctx.id).state)
        &&& (match Self::auth_step(before.client(ctx.id), payload) {
                Some((client, reply, ok)) => {
                    &&& r.is_ok() == ok
                    &&& after.client(ctx.id) == client
                    &&& delivery_views(out_after) == delivery_views(out_before)
                    &&& rb_after.staged() == (match reply {
                        Some(code) => rb_before.staged().push(
                            rb_before.numeric(code, seq![], Self::auth_text(code)),
                        ),
                        None => rb_before.staged(),
                    })
                },
                None => if before.client(ctx.id).auth_id.is_none() {
                    &&& delivery_views(out_after) == delivery_views(out_before)
                    &&& exists|
                        started: Result<usize, auth::Error>,
                        challenge: Seq<u8>,
                        mechanisms: Seq<u8>,
                    |
                        Self::auth_begun(
                            before,
                            after,
                            rb_before,
                            rb_after,
                            ctx.id,
                            started,
                            challenge,
                            mechanisms,
                            r,
                        )
                } else {
                    let c = before.client(ctx.id);
                    let text = crate::client::pushed(c.auth_buffer, payload).unwrap();
                    exists|
                        middle: Self,
                        answer: Result<Option<Vec<u8>>, auth::Error>,
                        challenge: Seq<u8>,
                    |
                        {
                            &&& middle.same_but_clients(before)
                            &&& middle.has_client(ctx.id)
                            &&& middle.clients() == before.clients().insert(
                                ctx.id,
                                middle.clients()[ctx.id],
                            )
                            &&& middle.client(ctx.id) == (ClientView {
                                auth_buffer: Seq::<u8>::empty(),
                                ..c
                            })
                            &&& text.len() <= codec::BASE64_INPUT_MAX && codec::base64_decoded(
                                text,
                            ).is_none() ==> answer == Err::<Option<Vec<u8>>, auth::Error>(
                                auth::Error::BadBase64,
                            )
                            &&& Self::auth_finished(
                                &middle,
                                after,
                                rb_before,
                                rb_after,
                                out_before,
                                out_after,
                                ctx.id,
                                answer,
                                challenge,
                                r,
                            )
                        }
                },
            })
    }

    /// `AUTHENTICATE`: starts an exchange with the provider, goes on with
    /// one, or gives one up.
    ///
    /// Where the provider has no say, `auth_step` says what happens.  Where
    /// a mechanism is chosen, the provider is asked to start an exchange,
    /// and `auth_begun` holds of its answer.  Where a response is
    /// complete, it is decoded and the exchange goes on as `continue_auth`
    /// says: `auth_finished` holds, of the failure to decode or of the
    /// answer of the provider.
    pub fn cmd_authenticate(
        &mut self,
        ctx: &CommandContext,
        rb: &mut ReplyBuffer,
        out: &mut Vec<Delivery>,
        payload: &[u8],
    ) -> (r: HandlerResult)
        requires
            old(self).wf(),
            old(self).has_client(ctx.id),
            old(rb).wf(),
        ensures
            final(self).wf(),
            final(rb).wf(),
            old(rb).extended_by(final(rb)),
            out_extended(old(out)@, final(out)@),
            Self::authenticate_outcome(old(self), final(self), ctx, old(rb), final(rb), old(out)@, final(out)@, payload@, r),
    {
        let (logged_in, auth_id) = match table_get(&self.clients, ctx.id) {
            Some(client) => (client.identity.is_some(), client.auth_id),
            None => (false, None),
        };
        if logged_in {
            let ghost before = *self;
            let client = table_get_mut(&mut self.clients, ctx.id);
            client.auth_reset();
            proof {
                Self::lemma_client_changed(&before, self, ctx.id);
            }
            rb.reply0(rpl::ERR_SASLALREADY, lines::SASL_ALREADY.as_bytes());
            return Err(());
        }
        let is_star = payload.len() == 1 && payload[0] == STAR;
        assert(is_star == (payload@ == seq![STAR])) by {
            if is_star {
                assert(payload@ =~= seq![STAR]);
            }
        }
        match auth_id {
            Some(auth) => {
                if is_star {
                    let ghost before = *self;
                    let client = table_get_mut(&mut self.clients, ctx.id);
                    client.auth_reset();
                    proof {
                        Self::lemma_client_changed(&before, self, ctx.id);
                    }
                    rb.reply0(rpl::ERR_SASLABORTED, lines::SASL_ABORTED.as_bytes());
                    return Ok(());
                }
                let ghost before = *self;
                let client = table_get_mut(&mut self.clients, ctx.id);
                let pushed = client.auth_buffer_push(payload);
                match pushed {
                    Ok(true) => {
                        let ghost text = client@.auth_buffer;
                        let decoded = client.auth_buffer_decode();
                        proof {
                            Self::lemma_client_changed(&before, self, ctx.id);
                        }
                        let ghost middle = *self;
                        let r = self.continue_auth(auth, ctx, rb, out, decoded);
                        proof {
                            assert(self.clients() =~= old(self).clients().insert(
                                ctx.id,
                                self.clients()[ctx.id],
                            ));
                            if decoded.is_none() {
                                assert(Self::auth_finished(
                                    &middle,
                                    self,
                                    old(rb),
                                    rb,
                                    old(out)@,
                                    out@,
                                    ctx.id,
                                    Err(auth::Error::BadBase64),
                                    Seq::<u8>::empty(),
                                    r,
                                ));
                            } else {
                                let (answer, challenge) = choose|
                                    answer: Result<Option<Vec<u8>>, auth::Error>,
                                    challenge: Seq<u8>,
                                |
                                    Self::auth_finished(
                                        &middle,
                                        self,
                                        old(rb),
                                        rb,
                                        old(out)@,
                                        out@,
                                        ctx.id,
                                        answer,
                                        challenge,
                                        r,
                                    );
                                assert(Self::auth_finished(
                                    &middle,
                                    self,
                                    old(rb),
                                    rb,
                                    old(out)@,
                                    out@,
                                    ctx.id,
                                    answer,
                                    challenge,
                                    r,
                                ));
                            }
                        }
                        r
                    },
                    Ok(false) => {
                        proof {
                            Self::lemma_client_changed(&before, self, ctx.id);
                        }
                        Ok(())
                    },
                    Err(_) => {
                        proof {
                            Self::lemma_client_changed(&before, self, ctx.id);
                        }
                        rb.reply0(rpl::ERR_SASLTOOLONG, lines::SASL_TOO_LONG.as_bytes());
                        Err(())
                    },
                }
            },
            None => {
                let mut challenge: Vec<u8> = Vec::new();
                let started = self.auth_provider.start_auth(payload, &mut challenge);
                let mut mechanisms: Vec<u8> = Vec::new();
                self.auth_provider.write_mechanisms(&mut mechanisms);
                self.begin_auth(ctx, rb, started, challenge.as_slice(), mechanisms.as_slice())
            },
        }
    }

    /// What `SETNAME` does to the state, to the replies and to the
    /// deliveries; `r` is what its handler returns.
    pub open spec fn setname_outcome(
        before: &Self,
        after: &Self,
        ctx: &CommandContext,
        rb_before: &ReplyBuffer,
        rb_after: &ReplyBuffer,
        out_before: Seq<Delivery>,
        out_after: Seq<Delivery>,
        realname: Seq<u8>,
        r: Result<(), ()>,
    ) -> bool {
        &&& (after.has_client(ctx.id))
        &&& (after.same_but_clients(before))
        &&& (r.is_ok() == (0 < realname.len() <= before.namelen))
        &&& (r.is_ok() ==> after.clients() == before.clients().insert(
                ctx.id,
                after.clients()[ctx.id],
            ) && after.client(ctx.id) == (ClientView {
                real: realname,
                ..before.client(ctx.id)
            }) && rb_after.staged() == rb_before.staged().push(
                rb_before.other(
                    full_name(before.client(ctx.id)),
                    command_name(Command::SetName),
                    seq![],
                    Some(realname),
                ),
            ) && delivery_views(out_after) == delivery_views(out_before)
                + crate::state::send::sent_to(
                after.clients(),
                crate::state::send::notified(
                    after.clients(),
                    crate::state::send::sharing(
                        crate::state::base::entry_views(after.channels@),
                        ctx.id,
                    ),
                    ctx.id,
                    Audience::SetName,
                ),
                crate::state::send::plain(
                    full_name(before.client(ctx.id)),
                    command_name(Command::SetName),
                    seq![],
                    Some(realname),
                ),
            ))
        &&& (r.is_err() ==> after.clients == before.clients && delivery_views(
                out_after,
            ) == delivery_views(out_before) && rb_after.staged() == rb_before.staged().push(
                rb_before.other(
                    seq![],
                    "FAIL".spec_bytes(),
                    seq!["SETNAME".spec_bytes(), "INVALID_REALNAME".spec_bytes()],
                    Some(lines::INVALID_REALNAME.spec_bytes()),
                ),
            ))
    }

    /// `SETNAME`: gives the client a new real name, which must not be
    /// empty nor longer than the server allows.  The client and every
    /// client that shares a channel with it and knows the command are told.
    pub fn cmd_setname(
        &mut self,
        ctx: &CommandContext,
        rb: &mut ReplyBuffer,
        out: &mut Vec<Delivery>,
        realname: &[u8],
    ) -> (r: HandlerResult)
        requires
            old(self).wf(),
            old(self).has_client(ctx.id),
            old(rb).wf(),
        ensures
            final(self).wf(),
            final(rb).wf(),
            old(rb).extended_by(final(rb)),
            out_extended(old(out)@, final(out)@),
            Self::setname_outcome(old(self), final(self), ctx, old(rb), final(rb), old(out)@, final(out)@, realname@, r),
    {
        let none: Vec<u8> = Vec::new();
        assert(none@ =~= Seq::<u8>::empty());
        if realname.len() == 0 || self.namelen < realname.len() {
            let mut params: Vec<Vec<u8>> = Vec::new();
            params.push(from_str("SETNAME"));
            params.push(from_str("INVALID_REALNAME"));
            assert(crate::text::views(params@) =~= seq![
                "SETNAME".spec_bytes(),
                "INVALID_REALNAME".spec_bytes(),
            ]);
            rb.send(
                none.as_slice(),
                "FAIL".as_bytes(),
                &params,
                Some(lines::INVALID_REALNAME.as_bytes()),
            );
            return Err(());
        }
        let full = match table_get(&self.clients, ctx.id) {
            Some(client) => client.full_name(),
            None => Vec::new(),
        };
        let params: Vec<Vec<u8>> = Vec::new();
        assert(crate::text::views(params@) =~= Seq::<Seq<u8>>::empty());
        let command = Command::SetName.name();
        let line = plain_line(full.as_slice(), command.as_slice(), &params, Some(realname));
        rb.send(full.as_slice(), command.as_slice(), &params, Some(realname));
        let ghost before = *self;
        let client = table_get_mut(&mut self.clients, ctx.id);
        client.real = to_vec(realname);
        proof {
            Self::lemma_client_changed(&before, self, ctx.id);
        }
        self.send_notification(out, ctx.id, &line, Audience::SetName);
        Ok(())
    }
}

} // verus!
