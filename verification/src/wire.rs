//! A message on the wire: how it is written, and that it is read back as
//! what was written.

use vstd::prelude::*;
use vstd::string::StringSliceAdditionalSpecFns;
use crate::buffer::{crlf, line_head, tag_block, with_param, with_trailing, Line, LineView, MessageBuffer, BODY_LENGTH};
use crate::message::{command_name, command_of, has_forbidden, is_forbidden, is_line_space, names, params_from, parse_line, parse_trimmed, skip_spaces, trim, trim_end, Command, Message, MessageView, PARAMS_LENGTH};
use crate::reply::with_params;
use crate::text::{append, lemma_position_is, position, AT, COLON, CR, LF, SPACE};

verus! {

/// The word that stands for the command of a message.
pub open spec fn word_of(m: MessageView) -> Seq<u8> {
    match m.command {
        Ok(c) => command_name(c),
        Err(w) => w,
    }
}

/// The prefix of a message; empty where it has none.
pub open spec fn prefix_of(m: MessageView) -> Seq<u8> {
    match m.prefix {
        Some(p) => p,
        None => Seq::<u8>::empty(),
    }
}

/// The line that is built for a message, without its tags and without the
/// final CR-LF: the prefix and the command, then the parameters, the last
/// one behind a `:`.  What does not fit is cut.
pub open spec fn built_body(m: MessageView) -> Seq<u8> {
    let head = line_head(prefix_of(m), word_of(m));
    if m.params.len() == 0 {
        head
    } else {
        with_trailing(with_params(head, m.params.drop_last()), m.params.last())
    }
}

/// The line that is built for a message.
pub open spec fn built_line(m: MessageView) -> LineView {
    LineView { tags: tag_block(m.tags), body: built_body(m) + crlf() }
}

/// Builds the line of a message.
pub fn build(msg: &Message) -> (line: Line)
    ensures
        line.wf(),
        line@ == built_line(msg@),
        line.data@ == tag_block(msg@.tags) + built_body(msg@) + crlf(),
{
    let mut block: Vec<u8> = Vec::new();
    if msg.tags.len() > 0 {
        block.push(AT);
        append(&mut block, msg.tags.as_slice());
        block.push(SPACE);
    }
    assert(block@ =~= tag_block(msg@.tags));
    let none: Vec<u8> = Vec::new();
    assert(none@ =~= Seq::<u8>::empty());
    let name = match &msg.command {
        Ok(c) => c.name(),
        Err(w) => crate::text::to_vec(w.as_slice()),
    };
    let mut buffer = match &msg.prefix {
        Some(p) => MessageBuffer::tagged(block, p.as_slice(), name.as_slice()),
        None => MessageBuffer::tagged(block, none.as_slice(), name.as_slice()),
    };
    let ghost head = buffer.body();
    let ghost params = msg@.params;
    if msg.params.len() > 0 {
        let middle = msg.params.len() - 1;
        let mut i: usize = 0;
        assert(params.drop_last().subrange(0, 0) =~= Seq::<Seq<u8>>::empty());
        while i < middle
            invariant
                i <= middle,
                middle == msg.params@.len() - 1,
                params == msg@.params,
                buffer.wf(),
                buffer.tags() == tag_block(msg@.tags),
                buffer.body() == with_params(head, params.drop_last().subrange(0, i as int)),
            decreases middle - i,
        {
            buffer = buffer.param(msg.params[i].as_slice());
            proof {
                let now = params.drop_last().subrange(0, i + 1);
                assert(now.drop_last() =~= params.drop_last().subrange(0, i as int));
                assert(now.last() == msg.params@[i as int]@);
            }
            i += 1;
        }
        assert(params.drop_last().subrange(0, middle as int) =~= params.drop_last());
        buffer = buffer.trailing_param(msg.params[middle].as_slice());
    }
    let line = buffer.build();
    assert(line.data@ =~= tag_block(msg@.tags) + built_body(msg@) + crlf());
    line
}

/// Whether a byte string holds no space.
pub open spec fn spaceless(s: Seq<u8>) -> bool {
    forall|i: int| 0 <= i < s.len() ==> #[trigger] s[i] != SPACE
}

/// Whether a byte string holds no byte that is forbidden in a line.
pub open spec fn clean(s: Seq<u8>) -> bool {
    forall|i: int| 0 <= i < s.len() ==> !is_forbidden(#[trigger] s[i])
}

/// Whether a byte string can stand as one word of a line.
pub open spec fn is_word(s: Seq<u8>) -> bool {
    s.len() > 0 && spaceless(s) && clean(s)
}

/// Whether a message can be written on one line and told apart again:
/// its tags hold no space; its prefix, where it has one, is a word; its
/// command is a command of the server, a numeric reply below 1000, or a
/// word that starts with neither `:` nor `@` and is the name of no
/// command; it has fifteen parameters at most; all parameters but the last
/// are words that do not start with `:`; and the last one holds no
/// forbidden byte and does not end in a space.
pub open spec fn valid_message(m: MessageView) -> bool {
    &&& spaceless(m.tags)
    &&& clean(m.tags)
    &&& m.prefix matches Some(p) ==> is_word(p)
    &&& match m.command {
        Ok(c) => c matches Command::Reply(n) ==> n < 1000,
        Err(w) => is_word(w) && w[0] != COLON && w[0] != AT && command_of(w) == Err::<
            Command,
            Seq<u8>,
        >(w),
    }
    &&& m.params.len() <= PARAMS_LENGTH
    &&& forall|i: int|
        0 <= i < m.params.len() - 1 ==> is_word(#[trigger] m.params[i]) && m.params[i][0] != COLON
    &&& m.params.len() > 0 ==> clean(m.params.last()) && (m.params.last().len() == 0
        || m.params.last().last() != SPACE)
}

/// The start of a line as it is written where nothing is cut.
pub open spec fn head_of(m: MessageView) -> Seq<u8> {
    match m.prefix {
        Some(p) => seq![COLON] + p + seq![SPACE] + word_of(m),
        None => word_of(m),
    }
}

/// The parameters from `i` on as they are written where nothing is cut.
pub open spec fn tail_from(params: Seq<Seq<u8>>, i: int) -> Seq<u8>
    decreases params.len() - i,
{
    if i < 0 || i >= params.len() {
        Seq::<u8>::empty()
    } else if i == params.len() - 1 {
        seq![SPACE, COLON] + params[i]
    } else {
        seq![SPACE] + params[i] + tail_from(params, i + 1)
    }
}

/// A line without its tags as it is written where nothing is cut.
pub open spec fn body_of(m: MessageView) -> Seq<u8> {
    head_of(m) + tail_from(m.params, 0)
}

/// Whether the line of a message is within the limit, so that nothing of
/// it is cut.
pub open spec fn fits(m: MessageView) -> bool {
    body_of(m).len() <= BODY_LENGTH
}

/// The first `n` parameters as they are written where nothing is cut, none
/// of them as the last one.
pub open spec fn middle_to(params: Seq<Seq<u8>>, n: int) -> Seq<u8>
    decreases n,
{
    if n <= 0 || n > params.len() {
        Seq::<u8>::empty()
    } else {
        middle_to(params, n - 1) + seq![SPACE] + params[n - 1]
    }
}

proof fn lemma_tail_split(params: Seq<Seq<u8>>, n: int)
    requires
        0 <= n < params.len(),
    ensures
        middle_to(params, n) + tail_from(params, n) == tail_from(params, 0),
    decreases n,
{
    if n > 0 {
        lemma_tail_split(params, n - 1);
        assert(tail_from(params, n - 1) == seq![SPACE] + params[n - 1] + tail_from(params, n));
        assert(middle_to(params, n) + tail_from(params, n) =~= middle_to(params, n - 1)
            + tail_from(params, n - 1));
    } else {
        assert(middle_to(params, 0) + tail_from(params, 0) =~= tail_from(params, 0));
    }
}

proof fn lemma_with_params_fits(body: Seq<u8>, params: Seq<Seq<u8>>, n: int)
    requires
        0 <= n <= params.len(),
        body.len() + middle_to(params, n).len() < BODY_LENGTH,
    ensures
        with_params(body, params.subrange(0, n)) == body + middle_to(params, n),
    decreases n,
{
    let first = params.subrange(0, n);
    if n > 0 {
        assert(first.drop_last() =~= params.subrange(0, n - 1));
        assert(first.last() == params[n - 1]);
        lemma_with_params_fits(body, params, n - 1);
        let before = body + middle_to(params, n - 1);
        assert(with_params(body, first) == with_param(before, params[n - 1]));
        assert(with_param(before, params[n - 1]) =~= body + middle_to(params, n));
    } else {
        assert(first =~= Seq::<Seq<u8>>::empty());
        assert(body + middle_to(params, 0) =~= body);
    }
}

/// Where the line of a message is within the limit, what is built for it
/// is what is written with nothing cut.
pub proof fn lemma_built_fits(m: MessageView)
    requires
        fits(m),
        m.prefix matches Some(p) ==> p.len() > 0,
    ensures
        built_body(m) == body_of(m),
{
    let head = line_head(prefix_of(m), word_of(m));
    assert(head =~= head_of(m));
    let n = m.params.len() as int;
    if n == 0 {
        assert(body_of(m) =~= head_of(m));
    } else {
        lemma_tail_split(m.params, n - 1);
        assert(tail_from(m.params, n - 1) == seq![SPACE, COLON] + m.params[n - 1]);
        let middle = m.params.drop_last();
        assert(middle =~= m.params.subrange(0, n - 1));
        lemma_with_params_fits(head, m.params, n - 1);
        let before = head + middle_to(m.params, n - 1);
        assert(body_of(m) =~= before + seq![SPACE, COLON] + m.params.last());
        assert(with_trailing(before, m.params.last()) =~= body_of(m));
    }
}

proof fn lemma_clean_tail(params: Seq<Seq<u8>>, i: int)
    requires
        0 <= i,
        forall|k: int| 0 <= k < params.len() ==> clean(#[trigger] params[k]),
    ensures
        clean(tail_from(params, i)),
    decreases params.len() - i,
{
    if i < params.len() - 1 {
        lemma_clean_tail(params, i + 1);
        assert(clean(params[i]));
    } else if i == params.len() - 1 {
        assert(clean(params[i]));
    }
}

/// The parameters that are read behind a command are those that were
/// written there.
proof fn lemma_params_read(s: Seq<u8>, at: int, params: Seq<Seq<u8>>, i: int, room: nat)
    requires
        0 <= at <= s.len(),
        0 <= i <= params.len(),
        params.len() - i <= room,
        s.subrange(at, s.len() as int) == tail_from(params, i),
        forall|k: int|
            0 <= k < params.len() - 1 ==> is_word(#[trigger] params[k]) && params[k][0] != COLON,
    ensures
        params_from(s, at, room) == params.subrange(i, params.len() as int),
    decreases params.len() - i,
{
    let rest = s.subrange(at, s.len() as int);
    let n = params.len() as int;
    if i >= n {
        assert(rest.len() == 0);
        assert(skip_spaces(s, at) == at);
        assert(params.subrange(i, n) =~= Seq::<Seq<u8>>::empty());
    } else {
        assert(rest == tail_from(params, i));
        if i == n - 1 {
            assert(tail_from(params, i) == seq![SPACE, COLON] + params[i]);
            assert(rest =~= seq![SPACE, COLON] + params[i]);
            assert(rest[0] == SPACE);
            assert(rest[1] == COLON);
            assert(s[at] == rest[0]);
            assert(s[at + 1] == rest[1]);
            assert(skip_spaces(s, at + 1) == at + 1);
            assert(skip_spaces(s, at) == at + 1);
            assert(s.subrange(at + 2, s.len() as int) =~= params[i]) by {
                assert forall|k: int| 0 <= k < params[i].len() implies s[at + 2 + k]
                    == params[i][k] by {
                    assert(rest[2 + k] == params[i][k]);
                }
            }
            assert(params.subrange(i, n) =~= seq![params[i]]);
        } else {
            let word = params[i];
            let after = tail_from(params, i + 1);
            assert(tail_from(params, i) == seq![SPACE] + word + after);
            assert(rest == seq![SPACE] + word + after);
            assert(rest[0] == SPACE);
            assert(s[at] == rest[0]);
            assert(is_word(word) && word[0] != COLON);
            assert forall|k: int| 0 <= k < word.len() implies s[at + 1 + k] == word[k] by {
                assert(rest[1 + k] == word[k]);
            }
            assert(s[at + 1] == word[0]);
            assert(skip_spaces(s, at + 1) == at + 1);
            assert(skip_spaces(s, at) == at + 1);
            let end = at + 1 + word.len();
            assert(after.len() > 0) by {
                if i + 1 == n - 1 {
                    assert(after == seq![SPACE, COLON] + params[i + 1]);
                } else {
                    assert(after == seq![SPACE] + params[i + 1] + tail_from(params, i + 2));
                }
            }
            assert(after[0] == SPACE) by {
                if i + 1 == n - 1 {
                    assert(after == seq![SPACE, COLON] + params[i + 1]);
                } else {
                    assert(after == seq![SPACE] + params[i + 1] + tail_from(params, i + 2));
                }
            }
            assert(s[end] == after[0]) by {
                assert(rest[end - at] == after[0]);
            }
            assert forall|j: int| at + 1 <= j < end implies s[j] != SPACE by {
                assert(s[j] == word[j - at - 1]);
            }
            lemma_position_is(s, at + 1, SPACE, end);
            assert(s.subrange(at + 1, end) =~= word);
            assert(s.subrange(end, s.len() as int) =~= after) by {
                assert forall|k: int| 0 <= k < after.len() implies s[end + k] == after[k] by {
                    assert(rest[end - at + k] == after[k]);
                }
            }
            lemma_params_read(s, end, params, i + 1, (room - 1) as nat);
            assert(params.subrange(i, n) =~= seq![word] + params.subrange(i + 1, n));
        }
    }
}

proof fn lemma_trim(s: Seq<u8>)
    requires
        s.len() > 0,
        s[0] != SPACE,
        !is_line_space(s.last()),
    ensures
        trim(s + crlf()) == s,
{
    let line = s + crlf();
    assert(line.last() == LF);
    let one = line.drop_last();
    assert(one =~= s + seq![CR]);
    assert(one.last() == CR);
    assert(one.drop_last() =~= s);
    assert(trim_end(s) == s);
    assert(trim_end(one) == trim_end(one.drop_last()));
    assert(trim_end(line) == trim_end(line.drop_last()));
    assert(trim_end(line) == s);
    assert(skip_spaces(s, 0) == 0);
    assert(s.subrange(0, s.len() as int) =~= s);
}

/// A line as it is written where nothing is cut, without the final CR-LF.
pub open spec fn written(m: MessageView) -> Seq<u8> {
    tag_block(m.tags) + head_of(m) + tail_from(m.params, 0)
}

/// Where the tags end in a written line.
pub open spec fn tags_end(m: MessageView) -> int {
    tag_block(m.tags).len() as int
}

/// Where the command starts in a written line.
pub open spec fn command_start(m: MessageView) -> int {
    tags_end(m) + (match m.prefix {
        Some(p) => p.len() + 2,
        None => 0,
    })
}

/// Where the command ends in a written line.
pub open spec fn command_end(m: MessageView) -> int {
    command_start(m) + word_of(m).len()
}

/// The command of a valid message is written as a word that is read as
/// that command.
proof fn lemma_valid_word(m: MessageView)
    requires
        valid_message(m),
    ensures
        is_word(word_of(m)),
        word_of(m)[0] != COLON,
        word_of(m)[0] != AT,
        command_of(word_of(m)) == m.command,
{
    match m.command {
        Ok(c) => lemma_command_read(c),
        Err(_) => {},
    }
}

/// What stands where in a written line.
proof fn lemma_layout(m: MessageView)
    requires
        valid_message(m),
    ensures
        written(m).len() == command_end(m) + tail_from(m.params, 0).len(),
        0 <= tags_end(m) <= command_start(m) < command_end(m) <= written(m).len(),
        forall|k: int|
            0 <= k < word_of(m).len() ==> #[trigger] written(m)[command_start(m) + k] == word_of(
                m,
            )[k],
        forall|k: int|
            0 <= k < tail_from(m.params, 0).len() ==> #[trigger] written(m)[command_end(m) + k]
                == tail_from(m.params, 0)[k],
        m.tags.len() > 0 ==> written(m)[0] == AT && written(m)[tags_end(m) - 1] == SPACE
            && tags_end(m) == m.tags.len() + 2 && forall|k: int|
            0 <= k < m.tags.len() ==> #[trigger] written(m)[1 + k] == m.tags[k],
        m.tags.len() == 0 ==> tags_end(m) == 0,
        m.prefix matches Some(p) ==> written(m)[tags_end(m)] == COLON && written(
            m,
        )[command_start(m) - 1] == SPACE && forall|k: int|
            0 <= k < p.len() ==> #[trigger] written(m)[tags_end(m) + 1 + k] == p[k],
{
    lemma_valid_word(m);
    let block = tag_block(m.tags);
    let head = head_of(m);
    let tail = tail_from(m.params, 0);
    let s = written(m);
    let a = tags_end(m);
    let b = command_start(m);
    assert forall|k: int| 0 <= k < word_of(m).len() implies #[trigger] s[b + k] == word_of(
        m,
    )[k] by {
        assert(s[b + k] == head[b - a + k]);
    }
    assert forall|k: int| 0 <= k < tail.len() implies #[trigger] s[command_end(m) + k]
        == tail[k] by {}
    if m.tags.len() > 0 {
        assert forall|k: int| 0 <= k < m.tags.len() implies #[trigger] s[1 + k] == m.tags[k] by {
            assert(s[1 + k] == block[1 + k]);
        }
    }
    match m.prefix {
        Some(p) => {
            assert(s[a] == head[0]);
            assert(s[b - 1] == head[b - 1 - a]);
            assert forall|k: int| 0 <= k < p.len() implies #[trigger] s[a + 1 + k] == p[k] by {
                assert(s[a + 1 + k] == head[1 + k]);
            }
        },
        None => {},
    }
}

/// A written line starts with no space, ends with none, and holds no
/// forbidden byte.
proof fn lemma_ends(m: MessageView)
    requires
        valid_message(m),
    ensures
        written(m).len() > 0,
        written(m)[0] != SPACE,
        !is_line_space(written(m).last()),
        !has_forbidden(written(m)),
{
    lemma_valid_word(m);
    lemma_layout(m);
    let s = written(m);
    let word = word_of(m);
    let tail = tail_from(m.params, 0);
    let a = tags_end(m);
    let b = command_start(m);
    let e = command_end(m);
    let n = m.params.len() as int;
    assert(s[b] == word[0]);
    assert forall|k: int| 0 <= k < m.params.len() implies clean(#[trigger] m.params[k]) by {
        if k < n - 1 {
            assert(is_word(m.params[k]));
        }
    }
    lemma_clean_tail(m.params, 0);
    assert forall|k: int| 0 <= k < s.len() implies !is_forbidden(#[trigger] s[k]) by {
        if k < a {
            if 0 < k < a - 1 {
                assert(s[1 + (k - 1)] == m.tags[k - 1]);
            }
        } else if k < b {
            match m.prefix {
                Some(p) => {
                    if a < k < b - 1 {
                        assert(s[a + 1 + (k - a - 1)] == p[k - a - 1]);
                    }
                },
                None => {},
            }
        } else if k < e {
            assert(s[b + (k - b)] == word[k - b]);
        } else {
            assert(s[e + (k - e)] == tail[k - e]);
        }
    }
    if n == 0 {
        assert(tail.len() == 0);
        assert(s.last() == s[b + (word.len() - 1)]);
    } else {
        lemma_tail_split(m.params, n - 1);
        let last = m.params.last();
        assert(tail_from(m.params, n - 1) == seq![SPACE, COLON] + last);
        assert(tail =~= middle_to(m.params, n - 1) + seq![SPACE, COLON] + last);
        assert(s.last() == s[e + (tail.len() - 1)]);
        if last.len() == 0 {
            assert(tail.last() == COLON);
        } else {
            assert(tail.last() == last.last());
            assert(!is_forbidden(last[last.len() - 1]));
        }
    }
}

/// The words of a written line end where they were written to end.
proof fn lemma_places(m: MessageView)
    requires
        valid_message(m),
    ensures
        m.tags.len() > 0 ==> position(written(m), 0, SPACE) == tags_end(m) - 1 && skip_spaces(
            written(m),
            tags_end(m) - 1,
        ) == tags_end(m),
        m.tags.len() == 0 ==> written(m)[0] != AT,
        m.prefix.is_some() ==> position(written(m), tags_end(m), SPACE) == command_start(m) - 1
            && skip_spaces(written(m), command_start(m) - 1) == command_start(m),
        m.prefix.is_none() ==> written(m)[tags_end(m)] != COLON,
        position(written(m), command_start(m), SPACE) == command_end(m),
{
    lemma_valid_word(m);
    lemma_layout(m);
    let s = written(m);
    let word = word_of(m);
    let tail = tail_from(m.params, 0);
    let a = tags_end(m);
    let b = command_start(m);
    let e = command_end(m);
    let n = m.params.len() as int;
    assert(s[b] == word[0]) by {
        assert(s[b + 0] == word[0]);
    }
    if m.tags.len() > 0 {
        assert forall|j: int| 0 <= j < a - 1 implies s[j] != SPACE by {
            if j > 0 {
                assert(s[1 + (j - 1)] == m.tags[j - 1]);
            }
        }
        lemma_position_is(s, 0, SPACE, a - 1);
        assert(s[a] != SPACE);
        assert(skip_spaces(s, a) == a);
        assert(skip_spaces(s, a - 1) == a);
    }
    match m.prefix {
        Some(p) => {
            assert forall|j: int| a <= j < b - 1 implies s[j] != SPACE by {
                if j > a {
                    assert(s[a + 1 + (j - a - 1)] == p[j - a - 1]);
                }
            }
            lemma_position_is(s, a, SPACE, b - 1);
            assert(skip_spaces(s, b) == b);
            assert(skip_spaces(s, b - 1) == b);
        },
        None => {},
    }
    assert forall|j: int| b <= j < e implies s[j] != SPACE by {
        assert(s[b + (j - b)] == word[j - b]);
    }
    if n > 0 {
        assert(tail[0] == SPACE) by {
            if n == 1 {
                assert(tail == seq![SPACE, COLON] + m.params[0]);
            } else {
                assert(tail == seq![SPACE] + m.params[0] + tail_from(m.params, 1));
            }
        }
        assert(s[e + 0] == tail[0]);
    } else {
        assert(tail.len() == 0);
    }
    lemma_position_is(s, b, SPACE, e);
}

/// A written line is read as the message that was written.
proof fn lemma_read_written(m: MessageView)
    requires
        valid_message(m),
    ensures
        parse_trimmed(written(m)) == Some(m),
{
    lemma_valid_word(m);
    lemma_layout(m);
    lemma_ends(m);
    lemma_places(m);
    let s = written(m);
    let a = tags_end(m);
    let b = command_start(m);
    let e = command_end(m);
    let n = m.params.len() as int;
    assert(s.subrange(e, s.len() as int) =~= tail_from(m.params, 0)) by {
        assert forall|k: int| 0 <= k < tail_from(m.params, 0).len() implies s.subrange(
            e,
            s.len() as int,
        )[k] == tail_from(m.params, 0)[k] by {
            assert(s[e + k] == tail_from(m.params, 0)[k]);
        }
    }
    lemma_params_read(s, e, m.params, 0, PARAMS_LENGTH as nat);
    assert(m.params.subrange(0, n) =~= m.params);
    assert(s.subrange(b, e) =~= word_of(m)) by {
        assert forall|k: int| 0 <= k < word_of(m).len() implies s.subrange(b, e)[k] == word_of(
            m,
        )[k] by {
            assert(s[b + k] == word_of(m)[k]);
        }
    }
    if m.tags.len() > 0 {
        assert(s.subrange(1, a - 1) =~= m.tags) by {
            assert forall|k: int| 0 <= k < m.tags.len() implies s.subrange(1, a - 1)[k]
                == m.tags[k] by {
                assert(s[1 + k] == m.tags[k]);
            }
        }
    } else {
        assert(m.tags =~= Seq::<u8>::empty());
    }
    match m.prefix {
        Some(p) => {
            assert(s.subrange(a + 1, b - 1) =~= p) by {
                assert forall|k: int| 0 <= k < p.len() implies s.subrange(a + 1, b - 1)[k]
                    == p[k] by {
                    assert(s[a + 1 + k] == p[k]);
                }
            }
        },
        None => {},
    }
    let parsed = parse_trimmed(s).unwrap();
    assert(parsed.tags == m.tags);
    assert(parsed.prefix == m.prefix);
    assert(parsed.command == m.command);
    assert(parsed.params == m.params);
}

/// A message that is written and read again is what it was: where a
/// message is valid and its line within the limit, the line that is built
/// for it parses as that message.
pub proof fn lemma_parse_build(m: MessageView)
    requires
        valid_message(m),
        fits(m),
    ensures
        parse_line(tag_block(m.tags) + built_body(m) + crlf()) == Some(m),
{
    lemma_built_fits(m);
    lemma_ends(m);
    lemma_read_written(m);
    let s = written(m);
    assert(tag_block(m.tags) + built_body(m) + crlf() =~= s + crlf());
    lemma_trim(s);
}

/// What tells the names of the commands apart: the length of a word, and
/// its first, second and last byte, small letters taken for capitals.
pub open spec fn mark(word: Seq<u8>) -> (nat, u8, u8, u8) {
    if word.len() < 2 {
        (word.len(), 0u8, 0u8, 0u8)
    } else {
        (
            word.len(),
            crate::text::lower(word[0]),
            crate::text::lower(word[1]),
            crate::text::lower(word.last()),
        )
    }
}

/// A word that is the name of a command has the mark of the name.
proof fn lemma_mark(word: Seq<u8>, name: Seq<u8>)
    requires
        crate::text::fold(word) == crate::text::fold(name),
    ensures
        mark(word) == mark(name),
{
    assert(crate::text::fold(word).len() == word.len());
    assert(crate::text::fold(name).len() == name.len());
    if word.len() >= 2 {
        assert(crate::text::fold(word)[0] == crate::text::lower(word[0]));
        assert(crate::text::fold(name)[0] == crate::text::lower(name[0]));
        assert(crate::text::fold(word)[1] == crate::text::lower(word[1]));
        assert(crate::text::fold(name)[1] == crate::text::lower(name[1]));
        assert(crate::text::fold(word)[word.len() - 1] == crate::text::lower(word.last()));
        assert(crate::text::fold(name)[name.len() - 1] == crate::text::lower(name.last()));
    }
}

/// The mark of the name of a command that is no numeric reply, and that
/// the name is made of capitals only.
pub open spec fn name_mark(c: Command) -> (nat, u8, u8, u8) {
    match c {
        Command::Admin => (5nat, 0x61u8, 0x64u8, 0x6eu8),
        Command::Authenticate => (12nat, 0x61u8, 0x75u8, 0x65u8),
        Command::Away => (4nat, 0x61u8, 0x77u8, 0x79u8),
        Command::Cap => (3nat, 0x63u8, 0x61u8, 0x70u8),
        Command::Info => (4nat, 0x69u8, 0x6eu8, 0x6fu8),
        Command::Invite => (6nat, 0x69u8, 0x6eu8, 0x65u8),
        Command::Join => (4nat, 0x6au8, 0x6fu8, 0x6eu8),
        Command::Kick => (4nat, 0x6bu8, 0x69u8, 0x6bu8),
        Command::Kill => (4nat, 0x6bu8, 0x69u8, 0x6cu8),
        Command::List => (4nat, 0x6cu8, 0x69u8, 0x74u8),
        Command::Lusers => (6nat, 0x6cu8, 0x75u8, 0x73u8),
        Command::Mode => (4nat, 0x6du8, 0x6fu8, 0x65u8),
        Command::Motd => (4nat, 0x6du8, 0x6fu8, 0x64u8),
        Command::Names => (5nat, 0x6eu8, 0x61u8, 0x73u8),
        Command::Nick => (4nat, 0x6eu8, 0x69u8, 0x6bu8),
        Command::Notice => (6nat, 0x6eu8, 0x6fu8, 0x65u8),
        Command::Oper => (4nat, 0x6fu8, 0x70u8, 0x72u8),
        Command::Part => (4nat, 0x70u8, 0x61u8, 0x74u8),
        Command::Pass => (4nat, 0x70u8, 0x61u8, 0x73u8),
        Command::Ping => (4nat, 0x70u8, 0x69u8, 0x67u8),
        Command::Pong => (4nat, 0x70u8, 0x6fu8, 0x67u8),
        Command::PrivMsg => (7nat, 0x70u8, 0x72u8, 0x67u8),
        Command::Quit => (4nat, 0x71u8, 0x75u8, 0x74u8),
        Command::Rehash => (6nat, 0x72u8, 0x65u8, 0x68u8),
        Command::SetName => (7nat, 0x73u8, 0x65u8, 0x65u8),
        Command::TagMsg => (6nat, 0x74u8, 0x61u8, 0x67u8),
        Command::Time => (4nat, 0x74u8, 0x69u8, 0x65u8),
        Command::Topic => (5nat, 0x74u8, 0x6fu8, 0x63u8),
        Command::User => (4nat, 0x75u8, 0x73u8, 0x72u8),
        Command::Version => (7nat, 0x76u8, 0x65u8, 0x6eu8),
        Command::Who => (3nat, 0x77u8, 0x68u8, 0x6fu8),
        Command::Whois => (5nat, 0x77u8, 0x68u8, 0x73u8),
        Command::Reply(_) => (3nat, 0u8, 0u8, 0u8),
    }
}

/// Whether a byte is a capital letter.
pub open spec fn is_capital(c: u8) -> bool {
    0x41 <= c <= 0x5a
}

/// Whether a word is made of capital letters only.
pub open spec fn capitals(word: Seq<u8>) -> bool {
    forall|i: int| 0 <= i < word.len() ==> is_capital(#[trigger] word[i])
}

proof fn lemma_name_admin()
    ensures
        mark(command_name(Command::Admin)) == name_mark(Command::Admin),
        capitals(command_name(Command::Admin)),
        command_name(Command::Admin).len() == 5,
{
    reveal_strlit("ADMIN");
    vstd::string::is_ascii_spec_bytes("ADMIN");
    let name = command_name(Command::Admin);
    assert(name.len() == 5);
    assert(name[0] == 0x41u8);
    assert(name[1] == 0x44u8);
    assert(name[2] == 0x4du8);
    assert(name[3] == 0x49u8);
    assert(name[4] == 0x4eu8);
}

proof fn lemma_name_authenticate()
    ensures
        mark(command_name(Command::Authenticate)) == name_mark(Command::Authenticate),
        capitals(command_name(Command::Authenticate)),
        command_name(Command::Authenticate).len() == 12,
{
    reveal_strlit("AUTHENTICATE");
    vstd::string::is_ascii_spec_bytes("AUTHENTICATE");
    let name = command_name(Command::Authenticate);
    assert(name.len() == 12);
    assert(name[0] == 0x41u8);
    assert(name[1] == 0x55u8);
    assert(name[2] == 0x54u8);
    assert(name[3] == 0x48u8);
    assert(name[4] == 0x45u8);
    assert(name[5] == 0x4eu8);
    assert(name[6] == 0x54u8);
    assert(name[7] == 0x49u8);
    assert(name[8] == 0x43u8);
    assert(name[9] == 0x41u8);
    assert(name[10] == 0x54u8);
    assert(name[11] == 0x45u8);
}

proof fn lemma_name_away()
    ensures
        mark(command_name(Command::Away)) == name_mark(Command::Away),
        capitals(command_name(Command::Away)),
        command_name(Command::Away).len() == 4,
{
    reveal_strlit("AWAY");
    vstd::string::is_ascii_spec_bytes("AWAY");
    let name = command_name(Command::Away);
    assert(name.len() == 4);
    assert(name[0] == 0x41u8);
    assert(name[1] == 0x57u8);
    assert(name[2] == 0x41u8);
    assert(name[3] == 0x59u8);
}

proof fn lemma_name_cap()
    ensures
        mark(command_name(Command::Cap)) == name_mark(Command::Cap),
        capitals(command_name(Command::Cap)),
        command_name(Command::Cap).len() == 3,
{
    reveal_strlit("CAP");
    vstd::string::is_ascii_spec_bytes("CAP");
    let name = command_name(Command::Cap);
    assert(name.len() == 3);
    assert(name[0] == 0x43u8);
    assert(name[1] == 0x41u8);
    assert(name[2] == 0x50u8);
}

proof fn lemma_name_info()
    ensures
        mark(command_name(Command::Info)) == name_mark(Command::Info),
        capitals(command_name(Command::Info)),
        command_name(Command::Info).len() == 4,
{
    reveal_strlit("INFO");
    vstd::string::is_ascii_spec_bytes("INFO");
    let name = command_name(Command::Info);
    assert(name.len() == 4);
    assert(name[0] == 0x49u8);
    assert(name[1] == 0x4eu8);
    assert(name[2] == 0x46u8);
    assert(name[3] == 0x4fu8);
}

proof fn lemma_name_invite()
    ensures
        mark(command_name(Command::Invite)) == name_mark(Command::Invite),
        capitals(command_name(Command::Invite)),
        command_name(Command::Invite).len() == 6,
{
    reveal_strlit("INVITE");
    vstd::string::is_ascii_spec_bytes("INVITE");
    let name = command_name(Command::Invite);
    assert(name.len() == 6);
    assert(name[0] == 0x49u8);
    assert(name[1] == 0x4eu8);
    assert(name[2] == 0x56u8);
    assert(name[3] == 0x49u8);
    assert(name[4] == 0x54u8);
    assert(name[5] == 0x45u8);
}

proof fn lemma_name_join()
    ensures
        mark(command_name(Command::Join)) == name_mark(Command::Join),
        capitals(command_name(Command::Join)),
        command_name(Command::Join).len() == 4,
{
    reveal_strlit("JOIN");
    vstd::string::is_ascii_spec_bytes("JOIN");
    let name = command_name(Command::Join);
    assert(name.len() == 4);
    assert(name[0] == 0x4au8);
    assert(name[1] == 0x4fu8);
    assert(name[2] == 0x49u8);
    assert(name[3] == 0x4eu8);
}

proof fn lemma_name_kick()
    ensures
        mark(command_name(Command::Kick)) == name_mark(Command::Kick),
        capitals(command_name(Command::Kick)),
        command_name(Command::Kick).len() == 4,
{
    reveal_strlit("KICK");
    vstd::string::is_ascii_spec_bytes("KICK");
    let name = command_name(Command::Kick);
    assert(name.len() == 4);
    assert(name[0] == 0x4bu8);
    assert(name[1] == 0x49u8);
    assert(name[2] == 0x43u8);
    assert(name[3] == 0x4bu8);
}

proof fn lemma_name_kill()
    ensures
        mark(command_name(Command::Kill)) == name_mark(Command::Kill),
        capitals(command_name(Command::Kill)),
        command_name(Command::Kill).len() == 4,
{
    reveal_strlit("KILL");
    vstd::string::is_ascii_spec_bytes("KILL");
    let name = command_name(Command::Kill);
    assert(name.len() == 4);
    assert(name[0] == 0x4bu8);
    assert(name[1] == 0x49u8);
    assert(name[2] == 0x4cu8);
    assert(name[3] == 0x4cu8);
}

proof fn lemma_name_list()
    ensures
        mark(command_name(Command::List)) == name_mark(Command::List),
        capitals(command_name(Command::List)),
        command_name(Command::List).len() == 4,
{
    reveal_strlit("LIST");
    vstd::string::is_ascii_spec_bytes("LIST");
    let name = command_name(Command::List);
    assert(name.len() == 4);
    assert(name[0] == 0x4cu8);
    assert(name[1] == 0x49u8);
    assert(name[2] == 0x53u8);
    assert(name[3] == 0x54u8);
}

proof fn lemma_name_lusers()
    ensures
        mark(command_name(Command::Lusers)) == name_mark(Command::Lusers),
        capitals(command_name(Command::Lusers)),
        command_name(Command::Lusers).len() == 6,
{
    reveal_strlit("LUSERS");
    vstd::string::is_ascii_spec_bytes("LUSERS");
    let name = command_name(Command::Lusers);
    assert(name.len() == 6);
    assert(name[0] == 0x4cu8);
    assert(name[1] == 0x55u8);
    assert(name[2] == 0x53u8);
    assert(name[3] == 0x45u8);
    assert(name[4] == 0x52u8);
    assert(name[5] == 0x53u8);
}

proof fn lemma_name_mode()
    ensures
        mark(command_name(Command::Mode)) == name_mark(Command::Mode),
        capitals(command_name(Command::Mode)),
        command_name(Command::Mode).len() == 4,
{
    reveal_strlit("MODE");
    vstd::string::is_ascii_spec_bytes("MODE");
    let name = command_name(Command::Mode);
    assert(name.len() == 4);
    assert(name[0] == 0x4du8);
    assert(name[1] == 0x4fu8);
    assert(name[2] == 0x44u8);
    assert(name[3] == 0x45u8);
}

proof fn lemma_name_motd()
    ensures
        mark(command_name(Command::Motd)) == name_mark(Command::Motd),
        capitals(command_name(Command::Motd)),
        command_name(Command::Motd).len() == 4,
{
    reveal_strlit("MOTD");
    vstd::string::is_ascii_spec_bytes("MOTD");
    let name = command_name(Command::Motd);
    assert(name.len() == 4);
    assert(name[0] == 0x4du8);
    assert(name[1] == 0x4fu8);
    assert(name[2] == 0x54u8);
    assert(name[3] == 0x44u8);
}

proof fn lemma_name_names()
    ensures
        mark(command_name(Command::Names)) == name_mark(Command::Names),
        capitals(command_name(Command::Names)),
        command_name(Command::Names).len() == 5,
{
    reveal_strlit("NAMES");
    vstd::string::is_ascii_spec_bytes("NAMES");
    let name = command_name(Command::Names);
    assert(name.len() == 5);
    assert(name[0] == 0x4eu8);
    assert(name[1] == 0x41u8);
    assert(name[2] == 0x4du8);
    assert(name[3] == 0x45u8);
    assert(name[4] == 0x53u8);
}

proof fn lemma_name_nick()
    ensures
        mark(command_name(Command::Nick)) == name_mark(Command::Nick),
        capitals(command_name(Command::Nick)),
        command_name(Command::Nick).len() == 4,
{
    reveal_strlit("NICK");
    vstd::string::is_ascii_spec_bytes("NICK");
    let name = command_name(Command::Nick);
    assert(name.len() == 4);
    assert(name[0] == 0x4eu8);
    assert(name[1] == 0x49u8);
    assert(name[2] == 0x43u8);
    assert(name[3] == 0x4bu8);
}

proof fn lemma_name_notice()
    ensures
        mark(command_name(Command::Notice)) == name_mark(Command::Notice),
        capitals(command_name(Command::Notice)),
        command_name(Command::Notice).len() == 6,
{
    reveal_strlit("NOTICE");
    vstd::string::is_ascii_spec_bytes("NOTICE");
    let name = command_name(Command::Notice);
    assert(name.len() == 6);
    assert(name[0] == 0x4eu8);
    assert(name[1] == 0x4fu8);
    assert(name[2] == 0x54u8);
    assert(name[3] == 0x49u8);
    assert(name[4] == 0x43u8);
    assert(name[5] == 0x45u8);
}

proof fn lemma_name_oper()
    ensures
        mark(command_name(Command::Oper)) == name_mark(Command::Oper),
        capitals(command_name(Command::Oper)),
        command_name(Command::Oper).len() == 4,
{
    reveal_strlit("OPER");
    vstd::string::is_ascii_spec_bytes("OPER");
    let name = command_name(Command::Oper);
    assert(name.len() == 4);
    assert(name[0] == 0x4fu8);
    assert(name[1] == 0x50u8);
    assert(name[2] == 0x45u8);
    assert(name[3] == 0x52u8);
}

proof fn lemma_name_part()
    ensures
        mark(command_name(Command::Part)) == name_mark(Command::Part),
        capitals(command_name(Command::Part)),
        command_name(Command::Part).len() == 4,
{
    reveal_strlit("PART");
    vstd::string::is_ascii_spec_bytes("PART");
    let name = command_name(Command::Part);
    assert(name.len() == 4);
    assert(name[0] == 0x50u8);
    assert(name[1] == 0x41u8);
    assert(name[2] == 0x52u8);
    assert(name[3] == 0x54u8);
}

proof fn lemma_name_pass()
    ensures
        mark(command_name(Command::Pass)) == name_mark(Command::Pass),
        capitals(command_name(Command::Pass)),
        command_name(Command::Pass).len() == 4,
{
    reveal_strlit("PASS");
    vstd::string::is_ascii_spec_bytes("PASS");
    let name = command_name(Command::Pass);
    assert(name.len() == 4);
    assert(name[0] == 0x50u8);
    assert(name[1] == 0x41u8);
    assert(name[2] == 0x53u8);
    assert(name[3] == 0x53u8);
}

proof fn lemma_name_ping()
    ensures
        mark(command_name(Command::Ping)) == name_mark(Command::Ping),
        capitals(command_name(Command::Ping)),
        command_name(Command::Ping).len() == 4,
{
    reveal_strlit("PING");
    vstd::string::is_ascii_spec_bytes("PING");
    let name = command_name(Command::Ping);
    assert(name.len() == 4);
    assert(name[0] == 0x50u8);
    assert(name[1] == 0x49u8);
    assert(name[2] == 0x4eu8);
    assert(name[3] == 0x47u8);
}

proof fn lemma_name_pong()
    ensures
        mark(command_name(Command::Pong)) == name_mark(Command::Pong),
        capitals(command_name(Command::Pong)),
        command_name(Command::Pong).len() == 4,
{
    reveal_strlit("PONG");
    vstd::string::is_ascii_spec_bytes("PONG");
    let name = command_name(Command::Pong);
    assert(name.len() == 4);
    assert(name[0] == 0x50u8);
    assert(name[1] == 0x4fu8);
    assert(name[2] == 0x4eu8);
    assert(name[3] == 0x47u8);
}

proof fn lemma_name_privmsg()
    ensures
        mark(command_name(Command::PrivMsg)) == name_mark(Command::PrivMsg),
        capitals(command_name(Command::PrivMsg)),
        command_name(Command::PrivMsg).len() == 7,
{
    reveal_strlit("PRIVMSG");
    vstd::string::is_ascii_spec_bytes("PRIVMSG");
    let name = command_name(Command::PrivMsg);
    assert(name.len() == 7);
    assert(name[0] == 0x50u8);
    assert(name[1] == 0x52u8);
    assert(name[2] == 0x49u8);
    assert(name[3] == 0x56u8);
    assert(name[4] == 0x4du8);
    assert(name[5] == 0x53u8);
    assert(name[6] == 0x47u8);
}

proof fn lemma_name_quit()
    ensures
        mark(command_name(Command::Quit)) == name_mark(Command::Quit),
        capitals(command_name(Command::Quit)),
        command_name(Command::Quit).len() == 4,
{
    reveal_strlit("QUIT");
    vstd::string::is_ascii_spec_bytes("QUIT");
    let name = command_name(Command::Quit);
    assert(name.len() == 4);
    assert(name[0] == 0x51u8);
    assert(name[1] == 0x55u8);
    assert(name[2] == 0x49u8);
    assert(name[3] == 0x54u8);
}

proof fn lemma_name_rehash()
    ensures
        mark(command_name(Command::Rehash)) == name_mark(Command::Rehash),
        capitals(command_name(Command::Rehash)),
        command_name(Command::Rehash).len() == 6,
{
    reveal_strlit("REHASH");
    vstd::string::is_ascii_spec_bytes("REHASH");
    let name = command_name(Command::Rehash);
    assert(name.len() == 6);
    assert(name[0] == 0x52u8);
    assert(name[1] == 0x45u8);
    assert(name[2] == 0x48u8);
    assert(name[3] == 0x41u8);
    assert(name[4] == 0x53u8);
    assert(name[5] == 0x48u8);
}

proof fn lemma_name_setname()
    ensures
        mark(command_name(Command::SetName)) == name_mark(Command::SetName),
        capitals(command_name(Command::SetName)),
        command_name(Command::SetName).len() == 7,
{
    reveal_strlit("SETNAME");
    vstd::string::is_ascii_spec_bytes("SETNAME");
    let name = command_name(Command::SetName);
    assert(name.len() == 7);
    assert(name[0] == 0x53u8);
    assert(name[1] == 0x45u8);
    assert(name[2] == 0x54u8);
    assert(name[3] == 0x4eu8);
    assert(name[4] == 0x41u8);
    assert(name[5] == 0x4du8);
    assert(name[6] == 0x45u8);
}

proof fn lemma_name_tagmsg()
    ensures
        mark(command_name(Command::TagMsg)) == name_mark(Command::TagMsg),
        capitals(command_name(Command::TagMsg)),
        command_name(Command::TagMsg).len() == 6,
{
    reveal_strlit("TAGMSG");
    vstd::string::is_ascii_spec_bytes("TAGMSG");
    let name = command_name(Command::TagMsg);
    assert(name.len() == 6);
    assert(name[0] == 0x54u8);
    assert(name[1] == 0x41u8);
    assert(name[2] == 0x47u8);
    assert(name[3] == 0x4du8);
    assert(name[4] == 0x53u8);
    assert(name[5] == 0x47u8);
}

proof fn lemma_name_time()
    ensures
        mark(command_name(Command::Time)) == name_mark(Command::Time),
        capitals(command_name(Command::Time)),
        command_name(Command::Time).len() == 4,
{
    reveal_strlit("TIME");
    vstd::string::is_ascii_spec_bytes("TIME");
    let name = command_name(Command::Time);
    assert(name.len() == 4);
    assert(name[0] == 0x54u8);
    assert(name[1] == 0x49u8);
    assert(name[2] == 0x4du8);
    assert(name[3] == 0x45u8);
}

proof fn lemma_name_topic()
    ensures
        mark(command_name(Command::Topic)) == name_mark(Command::Topic),
        capitals(command_name(Command::Topic)),
        command_name(Command::Topic).len() == 5,
{
    reveal_strlit("TOPIC");
    vstd::string::is_ascii_spec_bytes("TOPIC");
    let name = command_name(Command::Topic);
    assert(name.len() == 5);
    assert(name[0] == 0x54u8);
    assert(name[1] == 0x4fu8);
    assert(name[2] == 0x50u8);
    assert(name[3] == 0x49u8);
    assert(name[4] == 0x43u8);
}

proof fn lemma_name_user()
    ensures
        mark(command_name(Command::User)) == name_mark(Command::User),
        capitals(command_name(Command::User)),
        command_name(Command::User).len() == 4,
{
    reveal_strlit("USER");
    vstd::string::is_ascii_spec_bytes("USER");
    let name = command_name(Command::User);
    assert(name.len() == 4);
    assert(name[0] == 0x55u8);
    assert(name[1] == 0x53u8);
    assert(name[2] == 0x45u8);
    assert(name[3] == 0x52u8);
}

proof fn lemma_name_version()
    ensures
        mark(command_name(Command::Version)) == name_mark(Command::Version),
        capitals(command_name(Command::Version)),
        command_name(Command::Version).len() == 7,
{
    reveal_strlit("VERSION");
    vstd::string::is_ascii_spec_bytes("VERSION");
    let name = command_name(Command::Version);
    assert(name.len() == 7);
    assert(name[0] == 0x56u8);
    assert(name[1] == 0x45u8);
    assert(name[2] == 0x52u8);
    assert(name[3] == 0x53u8);
    assert(name[4] == 0x49u8);
    assert(name[5] == 0x4fu8);
    assert(name[6] == 0x4eu8);
}

proof fn lemma_name_who()
    ensures
        mark(command_name(Command::Who)) == name_mark(Command::Who),
        capitals(command_name(Command::Who)),
        command_name(Command::Who).len() == 3,
{
    reveal_strlit("WHO");
    vstd::string::is_ascii_spec_bytes("WHO");
    let name = command_name(Command::Who);
    assert(name.len() == 3);
    assert(name[0] == 0x57u8);
    assert(name[1] == 0x48u8);
    assert(name[2] == 0x4fu8);
}

proof fn lemma_name_whois()
    ensures
        mark(command_name(Command::Whois)) == name_mark(Command::Whois),
        capitals(command_name(Command::Whois)),
        command_name(Command::Whois).len() == 5,
{
    reveal_strlit("WHOIS");
    vstd::string::is_ascii_spec_bytes("WHOIS");
    let name = command_name(Command::Whois);
    assert(name.len() == 5);
    assert(name[0] == 0x57u8);
    assert(name[1] == 0x48u8);
    assert(name[2] == 0x4fu8);
    assert(name[3] == 0x49u8);
    assert(name[4] == 0x53u8);
}

/// The names of the commands have marks of their own, and are made of
/// capitals.
pub proof fn lemma_names(c: Command)
    requires
        !(c is Reply),
    ensures
        mark(command_name(c)) == name_mark(c),
        capitals(command_name(c)),
        command_name(c).len() >= 3,
{
    match c {
        Command::Admin => lemma_name_admin(),
        Command::Authenticate => lemma_name_authenticate(),
        Command::Away => lemma_name_away(),
        Command::Cap => lemma_name_cap(),
        Command::Info => lemma_name_info(),
        Command::Invite => lemma_name_invite(),
        Command::Join => lemma_name_join(),
        Command::Kick => lemma_name_kick(),
        Command::Kill => lemma_name_kill(),
        Command::List => lemma_name_list(),
        Command::Lusers => lemma_name_lusers(),
        Command::Mode => lemma_name_mode(),
        Command::Motd => lemma_name_motd(),
        Command::Names => lemma_name_names(),
        Command::Nick => lemma_name_nick(),
        Command::Notice => lemma_name_notice(),
        Command::Oper => lemma_name_oper(),
        Command::Part => lemma_name_part(),
        Command::Pass => lemma_name_pass(),
        Command::Ping => lemma_name_ping(),
        Command::Pong => lemma_name_pong(),
        Command::PrivMsg => lemma_name_privmsg(),
        Command::Quit => lemma_name_quit(),
        Command::Rehash => lemma_name_rehash(),
        Command::SetName => lemma_name_setname(),
        Command::TagMsg => lemma_name_tagmsg(),
        Command::Time => lemma_name_time(),
        Command::Topic => lemma_name_topic(),
        Command::User => lemma_name_user(),
        Command::Version => lemma_name_version(),
        Command::Who => lemma_name_who(),
        Command::Whois => lemma_name_whois(),
        Command::Reply(_) => {},
    }
}

/// No two commands have the same mark.
pub proof fn lemma_marks_differ(c: Command, d: Command)
    requires
        !(c is Reply),
        !(d is Reply),
        name_mark(c) == name_mark(d),
    ensures
        c == d,
{
}

/// A word that is the name of a command is read as that command, unless
/// it is made of three digits.
pub proof fn lemma_name_read(word: Seq<u8>, c: Command)
    requires
        !(c is Reply),
        names(word, c),
        !(word.len() == 3 && crate::text::all_digits(word)),
    ensures
        command_of(word) == Ok::<Command, Seq<u8>>(c),
{
    lemma_names(c);
    lemma_mark(word, command_name(c));
    assert forall|d: Command| !(d is Reply) && #[trigger] names(word, d) implies d == c by {
        lemma_names(d);
        lemma_mark(word, command_name(d));
        lemma_marks_differ(c, d);
    }
    if names(word, Command::Admin) {
        assert(Command::Admin == c);
    }
    if names(word, Command::Authenticate) {
        assert(Command::Authenticate == c);
    }
    if names(word, Command::Away) {
        assert(Command::Away == c);
    }
    if names(word, Command::Cap) {
        assert(Command::Cap == c);
    }
    if names(word, Command::Info) {
        assert(Command::Info == c);
    }
    if names(word, Command::Invite) {
        assert(Command::Invite == c);
    }
    if names(word, Command::Join) {
        assert(Command::Join == c);
    }
    if names(word, Command::Kick) {
        assert(Command::Kick == c);
    }
    if names(word, Command::Kill) {
        assert(Command::Kill == c);
    }
    if names(word, Command::List) {
        assert(Command::List == c);
    }
    if names(word, Command::Lusers) {
        assert(Command::Lusers == c);
    }
    if names(word, Command::Mode) {
        assert(Command::Mode == c);
    }
    if names(word, Command::Motd) {
        assert(Command::Motd == c);
    }
    if names(word, Command::Names) {
        assert(Command::Names == c);
    }
    if names(word, Command::Nick) {
        assert(Command::Nick == c);
    }
    if names(word, Command::Notice) {
        assert(Command::Notice == c);
    }
    if names(word, Command::Oper) {
        assert(Command::Oper == c);
    }
    if names(word, Command::Part) {
        assert(Command::Part == c);
    }
    if names(word, Command::Pass) {
        assert(Command::Pass == c);
    }
    if names(word, Command::Ping) {
        assert(Command::Ping == c);
    }
    if names(word, Command::Pong) {
        assert(Command::Pong == c);
    }
    if names(word, Command::PrivMsg) {
        assert(Command::PrivMsg == c);
    }
    if names(word, Command::Quit) {
        assert(Command::Quit == c);
    }
    if names(word, Command::Rehash) {
        assert(Command::Rehash == c);
    }
    if names(word, Command::SetName) {
        assert(Command::SetName == c);
    }
    if names(word, Command::TagMsg) {
        assert(Command::TagMsg == c);
    }
    if names(word, Command::Time) {
        assert(Command::Time == c);
    }
    if names(word, Command::Topic) {
        assert(Command::Topic == c);
    }
    if names(word, Command::User) {
        assert(Command::User == c);
    }
    if names(word, Command::Version) {
        assert(Command::Version == c);
    }
    if names(word, Command::Who) {
        assert(Command::Who == c);
    }
    if names(word, Command::Whois) {
        assert(Command::Whois == c);
    }
}

/// The name of every command is read as that command, and the digits of
/// every numeric reply below 1000 as that reply.
pub proof fn lemma_command_read(c: Command)
    requires
        c matches Command::Reply(n) ==> n < 1000,
    ensures
        command_of(command_name(c)) == Ok::<Command, Seq<u8>>(c),
        is_word(command_name(c)),
        command_name(c)[0] != COLON,
        command_name(c)[0] != AT,
{
    let name = command_name(c);
    match c {
        Command::Reply(n) => {
            assert(name.len() == 3);
            assert(crate::text::is_digit(name[0]) && crate::text::is_digit(name[1])
                && crate::text::is_digit(name[2]));
            assert(crate::text::all_digits(name));
            let hundreds = (n / 100) % 10;
            let tens = (n / 10) % 10;
            let units = n % 10;
            assert(hundreds * 100 + tens * 10 + units == n);
            assert(name[0] - 0x30 == hundreds);
            assert(name[1] - 0x30 == tens);
            assert(name[2] - 0x30 == units);
        },
        _ => {
            lemma_names(c);
            assert(is_capital(name[0]));
            assert(!crate::text::all_digits(name)) by {
                if crate::text::all_digits(name) {
                    assert(crate::text::is_digit(name[0]));
                }
            }
            lemma_name_read(name, c);
            assert forall|i: int| 0 <= i < name.len() implies #[trigger] name[i] != SPACE by {
                assert(is_capital(name[i]));
            }
            assert forall|i: int| 0 <= i < name.len() implies !is_forbidden(#[trigger] name[i]) by {
                assert(is_capital(name[i]));
            }
        },
    }
}

} // verus!
