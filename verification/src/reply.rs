//! The replies to one command.
//!
//! The lines that the server sends to a client in answer to a command are
//! staged in a `ReplyBuffer` and handed over when the command is done.  For
//! a client that has labeled its command, they are wrapped in a batch that
//! carries the label.

use vstd::prelude::*;
use vstd::string::StringSliceAdditionalSpecFns;
use crate::buffer::{crlf, escaped, line_head, line_views, lines_wf, tag_block, tag_item, with_param, with_trailing, Line, LineView, MessageBuffer, TagBuffer};
use crate::client::reply_nick;
use crate::message::{reply_digits, Command};
use crate::text::{append, from_str, to_vec, MINUS, PLUS, STAR};

verus! {

/// The replies to one command of one client.
pub struct ReplyBuffer {
    /// The domain of the server, which the replies carry as their prefix.
    pub domain: Vec<u8>,
    /// The nickname of the client, which numeric replies carry as their
    /// first parameter.
    pub nick: Vec<u8>,
    /// The label of the command; empty where it has none.
    pub label: Vec<u8>,
    /// The name of the batch that wraps the replies to a labeled command.
    pub batch: Vec<u8>,
    /// The replies so far.
    pub lines: Vec<Line>,
}

/// The tags of every reply to a labeled command: the batch that it
/// belongs to.
pub open spec fn reply_tags(label: Seq<u8>, batch: Seq<u8>) -> Seq<u8> {
    if label.len() == 0 {
        Seq::<u8>::empty()
    } else {
        tag_block(tag_item("batch".spec_bytes(), Some(batch)))
    }
}

/// The tag that carries the label of a command.
pub open spec fn label_tags(label: Seq<u8>) -> Seq<u8> {
    tag_block(tag_item("label".spec_bytes(), Some(label)))
}

/// The line that acknowledges a labeled command to which there is no
/// reply.
pub open spec fn ack_line(domain: Seq<u8>, label: Seq<u8>) -> LineView {
    LineView { tags: label_tags(label), body: line_head(domain, "ACK".spec_bytes()) + crlf() }
}

/// The line that opens the batch of the replies to a labeled command.
pub open spec fn batch_start(domain: Seq<u8>, label: Seq<u8>, batch: Seq<u8>) -> LineView {
    LineView {
        tags: label_tags(label),
        body: with_param(
            with_param(line_head(domain, "BATCH".spec_bytes()), seq![PLUS] + batch),
            "labeled-response".spec_bytes(),
        ) + crlf(),
    }
}

/// The line that closes the batch.
pub open spec fn batch_end(domain: Seq<u8>, batch: Seq<u8>) -> LineView {
    LineView {
        tags: Seq::<u8>::empty(),
        body: with_param(line_head(domain, "BATCH".spec_bytes()), seq![MINUS] + batch) + crlf(),
    }
}

/// The lines that are sent for the replies to one command.  Without a
/// label they are the replies.  With a label they are the replies between
/// the two lines of their batch, or one acknowledgement where there is no
/// reply.
pub open spec fn finished(
    domain: Seq<u8>,
    label: Seq<u8>,
    batch: Seq<u8>,
    lines: Seq<LineView>,
) -> Seq<LineView> {
    if label.len() == 0 {
        lines
    } else if lines.len() == 0 {
        seq![ack_line(domain, label)]
    } else {
        seq![batch_start(domain, label, batch)] + lines + seq![batch_end(domain, batch)]
    }
}

/// A line with the parameters of a list added in order.
pub open spec fn with_params(body: Seq<u8>, params: Seq<Seq<u8>>) -> Seq<u8>
    decreases params.len(),
{
    if params.len() == 0 {
        body
    } else {
        with_param(with_params(body, params.drop_last()), params.last())
    }
}

pub proof fn lemma_with_params_0(body: Seq<u8>)
    ensures
        with_params(body, seq![]) == body,
{
}

pub proof fn lemma_with_params_1(body: Seq<u8>, a: Seq<u8>)
    ensures
        with_params(body, seq![a]) == with_param(body, a),
{
    let s = seq![a];
    assert(s.drop_last() =~= Seq::<Seq<u8>>::empty());
    assert(s.last() == a);
    assert(with_params(body, s) == with_param(with_params(body, s.drop_last()), s.last()));
}

pub proof fn lemma_with_params_2(body: Seq<u8>, a: Seq<u8>, b: Seq<u8>)
    ensures
        with_params(body, seq![a, b]) == with_param(with_param(body, a), b),
{
    let s = seq![a, b];
    assert(s.drop_last() =~= seq![a]);
    assert(s.last() == b);
    lemma_with_params_1(body, a);
    assert(with_params(body, s) == with_param(with_params(body, s.drop_last()), s.last()));
}

pub proof fn lemma_with_params_3(body: Seq<u8>, a: Seq<u8>, b: Seq<u8>, c: Seq<u8>)
    ensures
        with_params(body, seq![a, b, c]) == with_param(with_param(with_param(body, a), b), c),
{
    let s = seq![a, b, c];
    assert(s.drop_last() =~= seq![a, b]);
    assert(s.last() == c);
    lemma_with_params_2(body, a, b);
    assert(with_params(body, s) == with_param(with_params(body, s.drop_last()), s.last()));
}

/// What every reply of a buffer carries: the domain of the server, the
/// nickname of the client, and the label and the batch of its command.
pub struct ReplyHead {
    pub domain: Seq<u8>,
    pub nick: Seq<u8>,
    pub label: Seq<u8>,
    pub batch: Seq<u8>,
}

/// A numeric reply with the given parameters behind the nickname, the last
/// of them a text.
pub open spec fn numeric_of(head: ReplyHead, code: u16, params: Seq<Seq<u8>>, text: Seq<u8>) -> LineView {
    LineView {
        tags: reply_tags(head.label, head.batch),
        body: with_trailing(
            with_params(
                with_param(line_head(head.domain, reply_digits(code)), head.nick),
                params,
            ),
            text,
        ) + crlf(),
    }
}

/// A numeric reply with the given parameters behind the nickname and no
/// text.
pub open spec fn numeric_bare_of(head: ReplyHead, code: u16, params: Seq<Seq<u8>>) -> LineView {
    LineView {
        tags: reply_tags(head.label, head.batch),
        body: with_params(
            with_param(line_head(head.domain, reply_digits(code)), head.nick),
            params,
        ) + crlf(),
    }
}

impl ReplyBuffer {
    /// What every reply of the buffer carries.
    pub open spec fn head(&self) -> ReplyHead {
        ReplyHead { domain: self.domain@, nick: self.nick@, label: self.label@, batch: self.batch@ }
    }

    /// Every staged line is well formed.
    pub open spec fn wf(&self) -> bool {
        lines_wf(self.lines@)
    }

    /// The staged lines.
    pub open spec fn staged(&self) -> Seq<LineView> {
        line_views(self.lines@)
    }

    /// Whether `other` is this buffer with more lines, or the same.
    pub open spec fn extended_by(&self, other: &ReplyBuffer) -> bool {
        &&& other.domain@ == self.domain@
        &&& other.nick@ == self.nick@
        &&& other.label@ == self.label@
        &&& other.batch@ == self.batch@
        &&& self.staged().len() <= other.staged().len()
        &&& forall|i: int|
            0 <= i < self.staged().len() ==> #[trigger] other.staged()[i] == self.staged()[i]
    }

    /// Whether `other` is this buffer with more lines, or the same, the
    /// nickname of the client apart.
    pub open spec fn grown_to(&self, other: &ReplyBuffer) -> bool {
        &&& other.domain@ == self.domain@
        &&& other.label@ == self.label@
        &&& other.batch@ == self.batch@
        &&& self.staged().len() <= other.staged().len()
        &&& forall|i: int|
            0 <= i < self.staged().len() ==> #[trigger] other.staged()[i] == self.staged()[i]
    }

    /// Takes note of the new nickname of the client.
    pub fn set_nick(&mut self, nick: &[u8])
        requires
            old(self).wf(),
        ensures
            final(self).wf(),
            old(self).grown_to(final(self)),
            final(self).staged() == old(self).staged(),
            final(self).nick@ == reply_nick(nick@),
    {
        if nick.len() == 0 {
            let mut star: Vec<u8> = Vec::new();
            star.push(STAR);
            assert(star@ =~= seq![STAR]);
            self.nick = star;
        } else {
            self.nick = to_vec(nick);
        }
    }

    /// The start of a numeric reply: the domain, the three digits and the
    /// nickname of the client.
    pub open spec fn reply_head(&self, code: u16) -> Seq<u8> {
        with_param(line_head(self.domain@, reply_digits(code)), self.nick@)
    }

    /// The prefix that a line gets: the given one, or the domain of the
    /// server where none is given.
    pub open spec fn prefix_or_domain(&self, prefix: Seq<u8>) -> Seq<u8> {
        if prefix.len() == 0 {
            self.domain@
        } else {
            prefix
        }
    }

    /// An empty buffer for the replies to a command of the client `nick`
    /// (empty where it has no nickname yet).  `label` is the label of the
    /// command, empty where it has none, and `batch` the name for the batch
    /// of a labeled command.
    pub fn new(domain: &[u8], nick: &[u8], label: &[u8], batch: &[u8]) -> (rb: ReplyBuffer)
        ensures
            rb.wf(),
            rb.domain@ == domain@,
            rb.nick@ == reply_nick(nick@),
            rb.label@ == label@,
            rb.batch@ == batch@,
            rb.staged().len() == 0,
    {
        let shown = if nick.len() == 0 {
            let mut star: Vec<u8> = Vec::new();
            star.push(STAR);
            assert(star@ =~= seq![STAR]);
            star
        } else {
            to_vec(nick)
        };
        ReplyBuffer {
            domain: to_vec(domain),
            nick: shown,
            label: to_vec(label),
            batch: to_vec(batch),
            lines: Vec::new(),
        }
    }

    /// Whether no reply is staged.
    pub fn is_empty(&self) -> (r: bool)
        ensures
            r == (self.staged().len() == 0),
    {
        self.lines.len() == 0
    }

    /// The tags that every reply carries.
    fn tags(&self) -> (r: TagBuffer)
        ensures
            tag_block(r.tags()) == reply_tags(self.label@, self.batch@),
    {
        let none: Vec<u8> = Vec::new();
        let empty = TagBuffer { buf: none };
        if self.label.len() == 0 {
            assert(tag_block(empty.tags()) =~= reply_tags(self.label@, self.batch@));
            empty
        } else {
            let name = from_str("batch");
            let r = empty.tag(name.as_slice(), Some(self.batch.as_slice()));
            assert(r.tags() =~= tag_item("batch".spec_bytes(), Some(self.batch@)));
            assert(r.tags().len() > 0) by {
                assert(r.tags() =~= "batch".spec_bytes() + seq![crate::text::EQUALS] + escaped(
                    self.batch@,
                    0,
                ));
            }
            assert(tag_item("batch".spec_bytes(), Some(self.batch@)).len() > 0);
            r
        }
    }

    /// Starts a numeric reply: a line with the domain of the server as its
    /// prefix, the three digits, and the nickname of the client.
    pub fn reply(&self, code: u16) -> (msg: MessageBuffer)
        ensures
            msg.wf(),
            msg.tags() == reply_tags(self.label@, self.batch@),
            msg.body() == self.reply_head(code),
    {
        let digits = Command::Reply(code).name();
        let msg = self.tags().prefixed_command(self.domain.as_slice(), digits.as_slice());
        msg.param(self.nick.as_slice())
    }

    /// Starts a reply that is no numeric: a line with the domain of the
    /// server as its prefix, the command, and the nickname of the client.
    pub fn reply_command(&self, command: &[u8]) -> (msg: MessageBuffer)
        ensures
            msg.wf(),
            msg.tags() == reply_tags(self.label@, self.batch@),
            msg.body() == with_param(line_head(self.domain@, command@), self.nick@),
    {
        let msg = self.tags().prefixed_command(self.domain.as_slice(), command);
        msg.param(self.nick.as_slice())
    }

    /// Starts a line with the given prefix, or with the domain of the
    /// server where the prefix is empty.
    pub fn message(&self, prefix: &[u8], command: &[u8]) -> (msg: MessageBuffer)
        ensures
            msg.wf(),
            msg.tags() == reply_tags(self.label@, self.batch@),
            msg.body() == line_head(self.prefix_or_domain(prefix@), command@),
    {
        if prefix.len() == 0 {
            self.tags().prefixed_command(self.domain.as_slice(), command)
        } else {
            self.tags().prefixed_command(prefix, command)
        }
    }

    /// Stages a line.
    pub fn push(&mut self, msg: MessageBuffer)
        requires
            old(self).wf(),
            msg.wf(),
        ensures
            final(self).wf(),
            old(self).extended_by(final(self)),
            final(self).staged() == old(self).staged().push(
                LineView { tags: msg.tags(), body: msg.body() + crlf() },
            ),
    {
        let line = msg.build();
        self.lines.push(line);
        assert(self.staged() =~= old(self).staged().push(
            LineView { tags: msg.tags(), body: msg.body() + crlf() },
        ));
        assert(self.staged().subrange(0, old(self).staged().len() as int) =~= old(self).staged());
    }

    /// A numeric reply with the given parameters behind the nickname, the
    /// last of them a text.
    pub open spec fn numeric(&self, code: u16, params: Seq<Seq<u8>>, text: Seq<u8>) -> LineView {
        LineView {
            tags: reply_tags(self.label@, self.batch@),
            body: with_trailing(with_params(self.reply_head(code), params), text) + crlf(),
        }
    }

    /// A numeric reply with the given parameters behind the nickname and
    /// no text.
    pub open spec fn numeric_bare(&self, code: u16, params: Seq<Seq<u8>>) -> LineView {
        LineView {
            tags: reply_tags(self.label@, self.batch@),
            body: with_params(self.reply_head(code), params) + crlf(),
        }
    }

    /// A line that is no numeric reply, with the given prefix (the domain
    /// of the server where it is empty), command and parameters, the
    /// last of them a text where there is one.
    pub open spec fn other(
        &self,
        prefix: Seq<u8>,
        command: Seq<u8>,
        params: Seq<Seq<u8>>,
        text: Option<Seq<u8>>,
    ) -> LineView {
        let head = with_params(line_head(self.prefix_or_domain(prefix), command), params);
        LineView {
            tags: reply_tags(self.label@, self.batch@),
            body: (match text {
                Some(t) => with_trailing(head, t),
                None => head,
            }) + crlf(),
        }
    }

    /// Stages a numeric reply that holds a text only.
    pub fn reply0(&mut self, code: u16, text: &[u8])
        requires
            old(self).wf(),
        ensures
            final(self).wf(),
            old(self).extended_by(final(self)),
            final(self).staged() == old(self).staged().push(
                old(self).numeric(code, seq![], text@),
            ),
    {
        let msg = self.reply(code).trailing_param(text);
        proof {
            lemma_with_params_0(self.reply_head(code));
        }
        self.push(msg);
    }

    /// Stages a numeric reply that holds one parameter and a text.
    pub fn reply1(&mut self, code: u16, param: &[u8], text: &[u8])
        requires
            old(self).wf(),
        ensures
            final(self).wf(),
            old(self).extended_by(final(self)),
            final(self).staged() == old(self).staged().push(
                old(self).numeric(code, seq![param@], text@),
            ),
    {
        let msg = self.reply(code).param(param).trailing_param(text);
        proof {
            lemma_with_params_1(self.reply_head(code), param@);
        }
        self.push(msg);
    }

    /// Stages a numeric reply that holds two parameters and a text.
    pub fn reply2(&mut self, code: u16, first: &[u8], second: &[u8], text: &[u8])
        requires
            old(self).wf(),
        ensures
            final(self).wf(),
            old(self).extended_by(final(self)),
            final(self).staged() == old(self).staged().push(
                old(self).numeric(code, seq![first@, second@], text@),
            ),
    {
        let msg = self.reply(code).param(first).param(second).trailing_param(text);
        proof {
            lemma_with_params_2(self.reply_head(code), first@, second@);
        }
        self.push(msg);
    }

    /// Stages a numeric reply that holds three parameters and a text.
    pub fn reply3(&mut self, code: u16, first: &[u8], second: &[u8], third: &[u8], text: &[u8])
        requires
            old(self).wf(),
        ensures
            final(self).wf(),
            old(self).extended_by(final(self)),
            final(self).staged() == old(self).staged().push(
                old(self).numeric(code, seq![first@, second@, third@], text@),
            ),
    {
        let msg = self.reply(code).param(first).param(second).param(third).trailing_param(text);
        proof {
            lemma_with_params_3(self.reply_head(code), first@, second@, third@);
        }
        self.push(msg);
    }

    /// Stages a numeric reply that holds a list of parameters, and a text
    /// where one is given.
    pub fn reply_all(&mut self, code: u16, params: &Vec<Vec<u8>>, text: Option<&[u8]>)
        requires
            old(self).wf(),
        ensures
            final(self).wf(),
            old(self).extended_by(final(self)),
            final(self).staged() == old(self).staged().push(
                match text {
                    Some(t) => numeric_of(old(self).head(), code, crate::text::views(params@), t@),
                    None => numeric_bare_of(old(self).head(), code, crate::text::views(params@)),
                },
            ),
    {
        let mut msg = self.reply(code);
        let ghost head = msg.body();
        let ghost all = crate::text::views(params@);
        let mut i: usize = 0;
        assert(all.subrange(0, 0) =~= Seq::<Seq<u8>>::empty());
        while i < params.len()
            invariant
                i <= params@.len(),
                msg.wf(),
                msg.tags() == reply_tags(self.label@, self.batch@),
                all == crate::text::views(params@),
                msg.body() == with_params(head, all.subrange(0, i as int)),
            decreases params@.len() - i,
        {
            msg = msg.param(params[i].as_slice());
            proof {
                let now = all.subrange(0, i + 1);
                assert(now.drop_last() =~= all.subrange(0, i as int));
            }
            i += 1;
        }
        assert(all.subrange(0, params@.len() as int) =~= all);
        let msg = match text {
            Some(t) => msg.trailing_param(t),
            None => msg,
        };
        self.push(msg);
    }

    /// Stages a line that is no numeric reply.
    pub fn send(&mut self, prefix: &[u8], command: &[u8], params: &Vec<Vec<u8>>, text: Option<&[u8]>)
        requires
            old(self).wf(),
        ensures
            final(self).wf(),
            old(self).extended_by(final(self)),
            final(self).staged() == old(self).staged().push(
                old(self).other(
                    prefix@,
                    command@,
                    crate::text::views(params@),
                    match text {
                        Some(t) => Some(t@),
                        None => None,
                    },
                ),
            ),
    {
        let mut msg = self.message(prefix, command);
        let ghost head = msg.body();
        let ghost all = crate::text::views(params@);
        let mut i: usize = 0;
        while i < params.len()
            invariant
                i <= params@.len(),
                msg.wf(),
                msg.tags() == reply_tags(self.label@, self.batch@),
                all == crate::text::views(params@),
                msg.body() == with_params(head, all.subrange(0, i as int)),
            decreases params@.len() - i,
        {
            msg = msg.param(params[i].as_slice());
            proof {
                let now = all.subrange(0, i + 1);
                assert(now.drop_last() =~= all.subrange(0, i as int));
            }
            i += 1;
        }
        assert(all.subrange(0, params@.len() as int) =~= all);
        let msg = match text {
            Some(t) => msg.trailing_param(t),
            None => msg,
        };
        self.push(msg);
    }

    /// Ends the replies to the command and hands over the lines that are
    /// sent for them.
    pub fn end_lr(self) -> (lines: Vec<Line>)
        requires
            self.wf(),
        ensures
            lines_wf(lines@),
            line_views(lines@) == finished(self.domain@, self.label@, self.batch@, self.staged()),
    {
        if self.label.len() == 0 {
            return self.lines;
        }
        let none: Vec<u8> = Vec::new();
        let name = from_str("label");
        let tags = (TagBuffer { buf: none }).tag(name.as_slice(), Some(self.label.as_slice()));
        assert(tags.tags() =~= tag_item("label".spec_bytes(), Some(self.label@)));
        let mut out: Vec<Line> = Vec::new();
        if self.lines.len() == 0 {
            let ack = from_str("ACK");
            let msg = tags.prefixed_command(self.domain.as_slice(), ack.as_slice());
            out.push(msg.build());
            assert(line_views(out@) =~= finished(
                self.domain@,
                self.label@,
                self.batch@,
                self.staged(),
            ));
            return out;
        }
        let batch = from_str("BATCH");
        let kind = from_str("labeled-response");
        let mut opened: Vec<u8> = Vec::new();
        opened.push(PLUS);
        append(&mut opened, self.batch.as_slice());
        assert(opened@ =~= seq![PLUS] + self.batch@);
        let mut closed: Vec<u8> = Vec::new();
        closed.push(MINUS);
        append(&mut closed, self.batch.as_slice());
        assert(closed@ =~= seq![MINUS] + self.batch@);
        let start = tags.prefixed_command(self.domain.as_slice(), batch.as_slice()).param(
            opened.as_slice(),
        ).param(kind.as_slice());
        out.push(start.build());
        let ghost staged = self.staged();
        let ghost domain = self.domain@;
        let ghost label = self.label@;
        let ghost name_of_batch = self.batch@;
        let mut lines = self.lines;
        let ghost first = line_views(out@);
        assert(first =~= seq![batch_start(domain, label, name_of_batch)]);
        out.append(&mut lines);
        assert(line_views(out@) =~= first + staged);
        let end = MessageBuffer::new(self.domain.as_slice(), batch.as_slice()).param(
            closed.as_slice(),
        );
        assert(end.tags() =~= Seq::<u8>::empty());
        let ghost before_end = line_views(out@);
        out.push(end.build());
        assert(line_views(out@) =~= before_end.push(batch_end(domain, name_of_batch)));
        assert(line_views(out@) =~= finished(domain, label, name_of_batch, staged));
        out
    }
}

} // verus!
