//! Building lines of the protocol.
//!
//! A line is built once, with its tags, and the place where the tags end
//! is kept beside it: a recipient that has not asked for tags is sent the
//! bytes behind that place.  Without its tags a line has 512 bytes at
//! most, the final CR-LF counted; a parameter that does not fit is cut.

use vstd::prelude::*;
use crate::message::{command_name, Command};
use crate::text::{append, append_decimal, decimal, find, position, slice, to_vec, AT, BACKSLASH, COLON, CR, EQUALS, LF, PLUS, SEMICOLON, SPACE};

verus! {

/// The most bytes of a line without its tags and without the final CR-LF.
pub const BODY_LENGTH: usize = 510;

/// The bytes of `s` that fit into `room` bytes.
pub open spec fn fitted(s: Seq<u8>, room: int) -> Seq<u8> {
    if room <= 0 {
        Seq::<u8>::empty()
    } else if s.len() <= room {
        s
    } else {
        s.subrange(0, room)
    }
}

/// The start of a line: the prefix behind a `:` where there is one, and the
/// command; cut where it is too long for a line.
pub open spec fn line_head(prefix: Seq<u8>, command: Seq<u8>) -> Seq<u8> {
    let head = if prefix.len() > 0 {
        seq![COLON] + prefix + seq![SPACE] + command
    } else {
        command
    };
    fitted(head, BODY_LENGTH as int)
}

/// A line with one more parameter.  The parameter is cut where the line
/// would grow too long, and left out where not even one byte of it fits.
pub open spec fn with_param(body: Seq<u8>, param: Seq<u8>) -> Seq<u8> {
    let room = BODY_LENGTH - body.len() - 1;
    if room <= 0 {
        body
    } else {
        body + seq![SPACE] + fitted(param, room)
    }
}

/// A line with its last parameter, which may hold spaces and stands behind
/// a `:`.  It is cut where the line would grow too long, and left out
/// where not even the `:` fits.
pub open spec fn with_trailing(body: Seq<u8>, param: Seq<u8>) -> Seq<u8> {
    let room = BODY_LENGTH - body.len() - 2;
    if room < 0 {
        body
    } else {
        body + seq![SPACE, COLON] + fitted(param, room)
    }
}

pub open spec fn crlf() -> Seq<u8> {
    seq![CR, LF]
}

/// The tags as they stand at the start of a line: nothing where there are
/// none, else the tags between `@` and a space.
pub open spec fn tag_block(tags: Seq<u8>) -> Seq<u8> {
    if tags.len() == 0 {
        Seq::<u8>::empty()
    } else {
        seq![AT] + tags + seq![SPACE]
    }
}

/// A line that is ready to be sent, with the place where its tags end.
pub struct Line {
    pub data: Vec<u8>,
    pub tags_len: usize,
}

impl Line {
    /// The tags end inside the line, and what follows them is at most 512
    /// bytes and ends in CR-LF.
    pub open spec fn wf(&self) -> bool {
        &&& self.tags_len <= self.data@.len()
        &&& 2 <= self.data@.len() - self.tags_len <= BODY_LENGTH + 2
        &&& self.data@[self.data@.len() - 2] == CR
        &&& self.data@[self.data@.len() - 1] == LF
    }

    /// The line without its tags.
    pub open spec fn body(&self) -> Seq<u8> {
        self.data@.subrange(self.tags_len as int, self.data@.len() as int)
    }

    /// The bytes that a recipient is sent: the whole line where it takes
    /// tags, else the line without them.
    pub open spec fn rendered(&self, with_tags: bool) -> Seq<u8> {
        if with_tags {
            self.data@
        } else {
            self.body()
        }
    }

    /// Appends to `dst` the bytes that a recipient is sent.
    pub fn render(&self, with_tags: bool, dst: &mut Vec<u8>)
        requires
            self.wf(),
        ensures
            final(dst)@ == old(dst)@ + self.rendered(with_tags),
    {
        if with_tags {
            append(dst, self.data.as_slice());
        } else {
            let body = slice(self.data.as_slice(), self.tags_len, self.data.len());
            append(dst, body.as_slice());
        }
    }
}

/// What a line holds: its tags as they are sent, and the line without
/// them.
pub struct LineView {
    pub tags: Seq<u8>,
    pub body: Seq<u8>,
}

impl View for Line {
    type V = LineView;

    open spec fn view(&self) -> LineView {
        LineView { tags: self.data@.subrange(0, self.tags_len as int), body: self.body() }
    }
}

/// What a list of lines holds.
pub open spec fn line_views(lines: Seq<Line>) -> Seq<LineView> {
    Seq::new(lines.len(), |i: int| lines[i]@)
}

/// Whether every line of a list is well formed.
pub open spec fn lines_wf(lines: Seq<Line>) -> bool {
    forall|i: int| 0 <= i < lines.len() ==> (#[trigger] lines[i]).wf()
}

/// A line that is being built.
pub struct MessageBuffer {
    pub buf: Vec<u8>,
    pub tags_len: usize,
}

impl MessageBuffer {
    /// The tags end inside the buffer, and what follows them leaves room
    /// for the final CR-LF.
    pub open spec fn wf(&self) -> bool {
        self.tags_len <= self.buf@.len() && self.buf@.len() - self.tags_len <= BODY_LENGTH
    }

    /// The tags at the start of the line, as they are sent.
    pub open spec fn tags(&self) -> Seq<u8> {
        self.buf@.subrange(0, self.tags_len as int)
    }

    /// The line without its tags, as far as it is built.
    pub open spec fn body(&self) -> Seq<u8> {
        self.buf@.subrange(self.tags_len as int, self.buf@.len() as int)
    }

    fn push_fitted(&mut self, s: &[u8])
        requires
            old(self).wf(),
        ensures
            final(self).wf(),
            final(self).tags() == old(self).tags(),
            final(self).body() == old(self).body() + fitted(
                s@,
                BODY_LENGTH - old(self).body().len(),
            ),
    {
        let room = BODY_LENGTH - (self.buf.len() - self.tags_len);
        let n = if s.len() <= room {
            s.len()
        } else {
            room
        };
        let ghost start = self.buf@;
        let mut i: usize = 0;
        while i < n
            invariant
                i <= n <= s.len(),
                n <= room,
                room == BODY_LENGTH - (start.len() - self.tags_len),
                self.tags_len == old(self).tags_len,
                self.tags_len <= start.len(),
                self.buf@ == start + s@.subrange(0, i as int),
            decreases n - i,
        {
            self.buf.push(s[i]);
            i += 1;
            assert(self.buf@ =~= start + s@.subrange(0, i as int));
        }
        proof {
            assert(s@.subrange(0, n as int) =~= fitted(s@, room as int));
            assert(self.tags() =~= old(self).tags());
            assert(self.body() =~= old(self).body() + fitted(s@, room as int));
        }
    }

    /// A line that starts with `tags` (as they are sent: empty, or from
    /// `@` to the space), the prefix where it is not empty, and the command.
    pub fn tagged(tags: Vec<u8>, prefix: &[u8], command: &[u8]) -> (r: MessageBuffer)
        ensures
            r.wf(),
            r.tags() == tags@,
            r.body() == line_head(prefix@, command@),
    {
        let tags_len = tags.len();
        let mut r = MessageBuffer { buf: tags, tags_len };
        assert(r.body() =~= Seq::<u8>::empty());
        assert(r.tags() =~= tags@);
        let mut head: Vec<u8> = Vec::new();
        if prefix.len() > 0 {
            head.push(COLON);
            append(&mut head, prefix);
            head.push(SPACE);
        }
        append(&mut head, command);
        assert(head@ =~= if prefix@.len() > 0 {
            seq![COLON] + prefix@ + seq![SPACE] + command@
        } else {
            command@
        });
        r.push_fitted(head.as_slice());
        assert(r.body() =~= line_head(prefix@, command@));
        r
    }

    /// A line without tags that starts with the prefix, where it is not
    /// empty, and the command.
    pub fn new(prefix: &[u8], command: &[u8]) -> (r: MessageBuffer)
        ensures
            r.wf(),
            r.tags().len() == 0,
            r.body() == line_head(prefix@, command@),
    {
        MessageBuffer::tagged(Vec::new(), prefix, command)
    }

    /// A line without tags for a command or a numeric reply.
    pub fn command(prefix: &[u8], command: Command) -> (r: MessageBuffer)
        ensures
            r.wf(),
            r.tags().len() == 0,
            r.body() == line_head(prefix@, command_name(command)),
    {
        let name = command.name();
        MessageBuffer::new(prefix, name.as_slice())
    }

    /// Adds a parameter.
    pub fn param(self, param: &[u8]) -> (r: MessageBuffer)
        requires
            self.wf(),
        ensures
            r.wf(),
            r.tags() == self.tags(),
            r.body() == with_param(self.body(), param@),
    {
        let mut r = self;
        if r.buf.len() - r.tags_len + 1 < BODY_LENGTH {
            r.buf.push(SPACE);
            assert(r.tags() =~= self.tags());
            assert(r.body() =~= self.body() + seq![SPACE]);
            r.push_fitted(param);
            assert(r.body() =~= with_param(self.body(), param@));
        }
        r
    }

    /// Adds the decimal digits of a number as a parameter.
    pub fn fmt_param(self, n: usize) -> (r: MessageBuffer)
        requires
            self.wf(),
        ensures
            r.wf(),
            r.tags() == self.tags(),
            r.body() == with_param(self.body(), decimal(n as nat)),
    {
        let mut digits: Vec<u8> = Vec::new();
        append_decimal(&mut digits, n);
        assert(digits@ =~= decimal(n as nat));
        self.param(digits.as_slice())
    }

    /// Adds the last parameter, which may hold spaces.
    pub fn trailing_param(self, param: &[u8]) -> (r: MessageBuffer)
        requires
            self.wf(),
        ensures
            r.wf(),
            r.tags() == self.tags(),
            r.body() == with_trailing(self.body(), param@),
    {
        let mut r = self;
        if r.buf.len() - r.tags_len + 2 <= BODY_LENGTH {
            r.buf.push(SPACE);
            r.buf.push(COLON);
            assert(r.tags() =~= self.tags());
            assert(r.body() =~= self.body() + seq![SPACE, COLON]);
            r.push_fitted(param);
            assert(r.body() =~= with_trailing(self.body(), param@));
        }
        r
    }

    /// Ends the line with CR-LF.
    pub fn build(self) -> (line: Line)
        requires
            self.wf(),
        ensures
            line.wf(),
            line.tags_len == self.tags_len,
            line.data@ == self.buf@ + crlf(),
            line.body() == self.body() + crlf(),
            line@ == (LineView { tags: self.tags(), body: self.body() + crlf() }),
    {
        let mut data = self.buf;
        data.push(CR);
        data.push(LF);
        let line = Line { data, tags_len: self.tags_len };
        assert(line.data@ =~= self.buf@ + crlf());
        assert(line.body() =~= self.body() + crlf());
        assert(line@.tags =~= self.tags());
        line
    }
}

/// What an escaped byte of a tag value stands for.
pub open spec fn unescaped_byte(c: u8) -> u8 {
    if c == COLON {
        SEMICOLON
    } else if c == 0x73 {
        SPACE
    } else if c == 0x72 {
        CR
    } else if c == 0x6e {
        LF
    } else {
        c
    }
}

/// The value that an escaped tag value stands for, from `i` on: `\\:` is a
/// semicolon, `\\s` a space, `\\r` and `\\n` CR and LF, `\\\\` a backslash;
/// before any other byte, and at the end, a backslash is dropped.
pub open spec fn unescaped(s: Seq<u8>, i: int) -> Seq<u8>
    decreases s.len() - i,
{
    if i < 0 || i >= s.len() {
        Seq::<u8>::empty()
    } else if s[i] == BACKSLASH {
        if i + 1 >= s.len() {
            Seq::<u8>::empty()
        } else {
            seq![unescaped_byte(s[i + 1])] + unescaped(s, i + 2)
        }
    } else {
        seq![s[i]] + unescaped(s, i + 1)
    }
}

/// How one byte of a tag value is written.
pub open spec fn escaped_byte(c: u8) -> Seq<u8> {
    if c == SEMICOLON {
        seq![BACKSLASH, COLON]
    } else if c == SPACE {
        seq![BACKSLASH, 0x73u8]
    } else if c == CR {
        seq![BACKSLASH, 0x72u8]
    } else if c == LF {
        seq![BACKSLASH, 0x6eu8]
    } else if c == BACKSLASH {
        seq![BACKSLASH, BACKSLASH]
    } else {
        seq![c]
    }
}

/// How a tag value is written, from `i` on.
pub open spec fn escaped(s: Seq<u8>, i: int) -> Seq<u8>
    decreases s.len() - i,
{
    if i < 0 || i >= s.len() {
        Seq::<u8>::empty()
    } else {
        escaped_byte(s[i]) + escaped(s, i + 1)
    }
}

/// The value that an escaped tag value stands for.
pub fn tag_unescape(value: &[u8]) -> (r: Vec<u8>)
    ensures
        r@ == unescaped(value@, 0),
{
    let mut r: Vec<u8> = Vec::new();
    let mut i: usize = 0;
    while i < value.len()
        invariant
            i <= value.len(),
            r@ + unescaped(value@, i as int) == unescaped(value@, 0),
        decreases value.len() - i,
    {
        let c = value[i];
        let ghost before = r@;
        if c == BACKSLASH {
            if i + 1 >= value.len() {
                assert(before + unescaped(value@, i as int) =~= before);
                return r;
            }
            let next = value[i + 1];
            let plain = if next == COLON {
                SEMICOLON
            } else if next == 0x73 {
                SPACE
            } else if next == 0x72 {
                CR
            } else if next == 0x6e {
                LF
            } else {
                next
            };
            r.push(plain);
            assert(r@ + unescaped(value@, i + 2) =~= before + unescaped(value@, i as int));
            i += 2;
        } else {
            r.push(c);
            assert(r@ + unescaped(value@, i + 1) =~= before + unescaped(value@, i as int));
            i += 1;
        }
    }
    assert(r@ + unescaped(value@, i as int) =~= r@);
    r
}

/// Appends a tag value to `dst` as it is written on a line.
pub fn tag_escape(dst: &mut Vec<u8>, value: &[u8])
    ensures
        final(dst)@ == old(dst)@ + escaped(value@, 0),
{
    let mut i: usize = 0;
    while i < value.len()
        invariant
            i <= value.len(),
            dst@ + escaped(value@, i as int) == old(dst)@ + escaped(value@, 0),
        decreases value.len() - i,
    {
        let c = value[i];
        let ghost before = dst@;
        if c == SEMICOLON {
            dst.push(BACKSLASH);
            dst.push(COLON);
        } else if c == SPACE {
            dst.push(BACKSLASH);
            dst.push(0x73);
        } else if c == CR {
            dst.push(BACKSLASH);
            dst.push(0x72);
        } else if c == LF {
            dst.push(BACKSLASH);
            dst.push(0x6e);
        } else if c == BACKSLASH {
            dst.push(BACKSLASH);
            dst.push(BACKSLASH);
        } else {
            dst.push(c);
        }
        assert(dst@ =~= before + escaped_byte(c));
        assert(dst@ + escaped(value@, i + 1) =~= before + escaped(value@, i as int));
        i += 1;
    }
    assert(dst@ + escaped(value@, i as int) =~= dst@);
}

/// Written and read again, a tag value is what it was.
pub proof fn lemma_unescape_escape(value: Seq<u8>)
    ensures
        unescaped(escaped(value, 0), 0) == value,
{
    lemma_unescape_escape_from(value, 0);
    assert(value.subrange(0, value.len() as int) =~= value);
}

proof fn lemma_unescape_escape_from(value: Seq<u8>, i: int)
    requires
        0 <= i <= value.len(),
    ensures
        unescaped(escaped(value, i), 0) == value.subrange(i, value.len() as int),
    decreases value.len() - i,
{
    if i < value.len() {
        lemma_unescape_escape_from(value, i + 1);
        let head = escaped_byte(value[i]);
        let tail = escaped(value, i + 1);
        let all = head + tail;
        assert(escaped(value, i) == all);
        assert(tail =~= all.subrange(head.len() as int, all.len() as int));
        lemma_unescaped_shift(all, head.len() as int, tail);
        assert(value.subrange(i, value.len() as int) =~= seq![value[i]] + value.subrange(
            i + 1,
            value.len() as int,
        ));
        if head.len() == 2 {
            assert(all[0] == BACKSLASH);
            assert(all[1] == head[1]);
            assert(unescaped(all, 0) =~= seq![unescaped_byte(all[1])] + unescaped(all, 2));
        } else {
            assert(all[0] == value[i]);
            assert(unescaped(all, 0) =~= seq![all[0]] + unescaped(all, 1));
        }
    } else {
        assert(value.subrange(i, value.len() as int) =~= Seq::<u8>::empty());
    }
}

/// Reading from `k` on in `all` is reading `tail` from its start, where
/// `tail` is what stands in `all` from `k` on.
proof fn lemma_unescaped_shift(all: Seq<u8>, k: int, tail: Seq<u8>)
    requires
        0 <= k <= all.len(),
        tail == all.subrange(k, all.len() as int),
    ensures
        unescaped(all, k) == unescaped(tail, 0),
{
    lemma_unescaped_shift_at(all, k, tail, 0);
}

proof fn lemma_unescaped_shift_at(all: Seq<u8>, k: int, tail: Seq<u8>, j: int)
    requires
        0 <= k <= all.len(),
        tail == all.subrange(k, all.len() as int),
        0 <= j,
    ensures
        unescaped(all, k + j) == unescaped(tail, j),
    decreases tail.len() - j,
{
    if j < tail.len() {
        assert(tail[j] == all[k + j]);
        if tail[j] == BACKSLASH {
            if j + 1 < tail.len() {
                assert(tail[j + 1] == all[k + j + 1]);
                lemma_unescaped_shift_at(all, k, tail, j + 2);
            }
        } else {
            lemma_unescaped_shift_at(all, k, tail, j + 1);
        }
    }
}

/// One tag of a message: its key, and its value as it stood on the line,
/// where it has one.
pub struct Tag {
    pub key: Vec<u8>,
    pub value: Option<Vec<u8>>,
}

pub struct TagView {
    pub key: Seq<u8>,
    pub value: Option<Seq<u8>>,
}

impl View for Tag {
    type V = TagView;

    open spec fn view(&self) -> TagView {
        TagView {
            key: self.key@,
            value: match self.value {
                Some(v) => Some(v@),
                None => None,
            },
        }
    }
}

/// The tag that one item of a tag list writes: the key up to the first
/// `=`, and the value behind it where there is an `=`.
pub open spec fn tag_of(item: Seq<u8>) -> TagView {
    let at = position(item, 0, EQUALS);
    TagView {
        key: item.subrange(0, at),
        value: if at < item.len() {
            Some(item.subrange(at + 1, item.len() as int))
        } else {
            None
        },
    }
}

/// The tags that a tag list holds from `i` on.  The items are parted by
/// semicolons; an empty item is no tag.
pub open spec fn tags_from(blob: Seq<u8>, i: int) -> Seq<TagView>
    decreases blob.len() - i,
{
    if i < 0 || i >= blob.len() {
        Seq::<TagView>::empty()
    } else {
        let end = position(blob, i, SEMICOLON);
        let rest = if i <= end < blob.len() {
            tags_from(blob, end + 1)
        } else {
            Seq::<TagView>::empty()
        };
        if end == i {
            rest
        } else {
            seq![tag_of(blob.subrange(i, end))] + rest
        }
    }
}

pub open spec fn tag_views(tags: Seq<Tag>) -> Seq<TagView> {
    Seq::new(tags.len(), |i: int| tags[i]@)
}

/// The tags of a tag list, in order.
pub fn tags(blob: &[u8]) -> (r: Vec<Tag>)
    ensures
        tag_views(r@) == tags_from(blob@, 0),
{
    let mut r: Vec<Tag> = Vec::new();
    let mut i: usize = 0;
    while i < blob.len()
        invariant
            tag_views(r@) + tags_from(blob@, i as int) == tags_from(blob@, 0),
        decreases blob.len() - i,
    {
        let end = find(blob, i, SEMICOLON);
        let ghost before = tag_views(r@);
        if end > i {
            let item = slice(blob, i, end);
            let at = find(item.as_slice(), 0, EQUALS);
            let key = slice(item.as_slice(), 0, at);
            let value = if at < item.len() {
                Some(slice(item.as_slice(), at + 1, item.len()))
            } else {
                None
            };
            r.push(Tag { key, value });
            assert(tag_views(r@) =~= before.push(tag_of(blob@.subrange(i as int, end as int))));
        }
        assert(tag_views(r@) + tags_from(blob@, end + 1) =~= before + tags_from(blob@, i as int));
        if end >= blob.len() {
            assert(tags_from(blob@, end + 1) =~= Seq::<TagView>::empty());
            assert(tag_views(r@) + tags_from(blob@, end + 1) =~= tag_views(r@));
            return r;
        }
        i = end + 1;
    }
    assert(tag_views(r@) + tags_from(blob@, i as int) =~= tag_views(r@));
    r
}

/// The value of the first tag with this key, where it has one.
pub open spec fn tag_value(tags: Seq<TagView>, key: Seq<u8>) -> Option<Seq<u8>>
    decreases tags.len(),
{
    if tags.len() == 0 {
        None
    } else if tags[0].key == key {
        tags[0].value
    } else {
        tag_value(tags.subrange(1, tags.len() as int), key)
    }
}

/// The value of the first tag of a tag list with this key, where it has
/// one.
pub fn find_tag(blob: &[u8], key: &[u8]) -> (r: Option<Vec<u8>>)
    ensures
        match tag_value(tags_from(blob@, 0), key@) {
            Some(v) => r.is_some() && r.unwrap()@ == v,
            None => r.is_none(),
        },
{
    let all = tags(blob);
    let ghost views = tag_views(all@);
    let mut i: usize = 0;
    assert(views.subrange(0, views.len() as int) =~= views);
    while i < all.len()
        invariant
            i <= all@.len(),
            views == tag_views(all@),
            tag_value(views.subrange(i as int, views.len() as int), key@) == tag_value(
                tags_from(blob@, 0),
                key@,
            ),
        decreases all@.len() - i,
    {
        let ghost rest = views.subrange(i as int, views.len() as int);
        assert(rest.subrange(1, rest.len() as int) =~= views.subrange(i + 1, views.len() as int));
        assert(rest[0] == all@[i as int]@);
        if crate::text::eq(all[i].key.as_slice(), key) {
            return match &all[i].value {
                Some(v) => Some(to_vec(v.as_slice())),
                None => None,
            };
        }
        i += 1;
    }
    assert(views.subrange(views.len() as int, views.len() as int) =~= Seq::<TagView>::empty());
    None
}

/// The tags of a line that is being built: the items between `@` and the
/// space, parted by semicolons.
pub struct TagBuffer {
    pub buf: Vec<u8>,
}

/// A tag list with one more item.
pub open spec fn with_item(tags: Seq<u8>, item: Seq<u8>) -> Seq<u8> {
    if tags.len() == 0 {
        item
    } else {
        tags + seq![SEMICOLON] + item
    }
}

/// How a tag is written: its key, and behind an `=` its value, escaped.
pub open spec fn tag_item(key: Seq<u8>, value: Option<Seq<u8>>) -> Seq<u8> {
    match value {
        Some(v) => key + seq![EQUALS] + escaped(v, 0),
        None => key,
    }
}

/// Two tag lists as one.
pub open spec fn joined(a: Seq<u8>, b: Seq<u8>) -> Seq<u8> {
    if a.len() == 0 {
        b
    } else if b.len() == 0 {
        a
    } else {
        a + seq![SEMICOLON] + b
    }
}

proof fn lemma_joined_assoc(a: Seq<u8>, b: Seq<u8>, c: Seq<u8>)
    ensures
        joined(joined(a, b), c) == joined(a, joined(b, c)),
{
    assert(joined(joined(a, b), c) =~= joined(a, joined(b, c)));
}

/// The tags of a client that are passed on to others: the items of its tag
/// list that start with `+`, as they stand, from `i` on.
pub open spec fn client_tags(blob: Seq<u8>, i: int) -> Seq<u8>
    decreases blob.len() - i,
{
    if i < 0 || i >= blob.len() {
        Seq::<u8>::empty()
    } else {
        let end = position(blob, i, SEMICOLON);
        let rest = if i <= end < blob.len() {
            client_tags(blob, end + 1)
        } else {
            Seq::<u8>::empty()
        };
        if end > i && blob[i] == PLUS {
            joined(blob.subrange(i, end), rest)
        } else {
            rest
        }
    }
}

impl TagBuffer {
    /// The tag list so far.
    pub open spec fn tags(&self) -> Seq<u8> {
        self.buf@
    }

    /// Starts the tags of a line with those tags of a client that are
    /// passed on.
    pub fn new(from_client: &[u8]) -> (r: TagBuffer)
        ensures
            r.tags() == client_tags(from_client@, 0),
    {
        let mut buf: Vec<u8> = Vec::new();
        let mut i: usize = 0;
        assert(joined(buf@, client_tags(from_client@, 0)) =~= client_tags(from_client@, 0));
        while i < from_client.len()
            invariant
                joined(buf@, client_tags(from_client@, i as int)) == client_tags(from_client@, 0),
            decreases from_client.len() - i,
        {
            let end = find(from_client, i, SEMICOLON);
            let ghost before = buf@;
            let ghost rest = client_tags(from_client@, end + 1);
            if end > i && from_client[i] == PLUS {
                if buf.len() > 0 {
                    buf.push(SEMICOLON);
                }
                let item = slice(from_client, i, end);
                append(&mut buf, item.as_slice());
                proof {
                    assert(buf@ =~= joined(before, item@));
                    lemma_joined_assoc(before, item@, rest);
                }
            }
            if end >= from_client.len() {
                assert(rest =~= Seq::<u8>::empty());
                assert(joined(buf@, rest) =~= buf@);
                return TagBuffer { buf };
            }
            i = end + 1;
        }
        assert(joined(buf@, client_tags(from_client@, i as int)) =~= buf@);
        TagBuffer { buf }
    }

    /// Adds a tag.
    pub fn tag(self, key: &[u8], value: Option<&[u8]>) -> (r: TagBuffer)
        ensures
            r.tags() == with_item(
                self.tags(),
                tag_item(
                    key@,
                    match value {
                        Some(v) => Some(v@),
                        None => None,
                    },
                ),
            ),
    {
        let mut buf = self.buf;
        if buf.len() > 0 {
            buf.push(SEMICOLON);
        }
        append(&mut buf, key);
        match value {
            Some(v) => {
                buf.push(EQUALS);
                tag_escape(&mut buf, v);
            },
            None => {},
        }
        let r = TagBuffer { buf };
        assert(r.tags() =~= with_item(
            self.tags(),
            tag_item(
                key@,
                match value {
                    Some(v) => Some(v@),
                    None => None,
                },
            ),
        ));
        r
    }

    /// Ends the tags and starts the line behind them.
    pub fn prefixed_command(self, prefix: &[u8], command: &[u8]) -> (r: MessageBuffer)
        ensures
            r.wf(),
            r.tags() == tag_block(self.tags()),
            r.body() == line_head(prefix@, command@),
    {
        let mut block: Vec<u8> = Vec::new();
        if self.buf.len() > 0 {
            block.push(AT);
            append(&mut block, self.buf.as_slice());
            block.push(SPACE);
        }
        assert(block@ =~= tag_block(self.tags()));
        MessageBuffer::tagged(block, prefix, command)
    }
}

} // verus!
