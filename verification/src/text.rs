//! Byte strings.
//!
//! IRC is a protocol of bytes: names, parameters and whole lines are held as
//! `Vec<u8>` and specified as `Seq<u8>`.  This module holds the small
//! operations on them that the other modules share, the ASCII case mapping
//! among them.

use vstd::prelude::*;
use vstd::string::StringSliceAdditionalSpecFns;

verus! {

pub const NUL: u8 = 0x00;
pub const BELL: u8 = 0x07;
pub const LF: u8 = 0x0a;
pub const CR: u8 = 0x0d;
pub const SPACE: u8 = 0x20;
pub const BANG: u8 = 0x21;
pub const HASH: u8 = 0x23;
pub const AMPERSAND: u8 = 0x26;
pub const STAR: u8 = 0x2a;
pub const PLUS: u8 = 0x2b;
pub const COMMA: u8 = 0x2c;
pub const MINUS: u8 = 0x2d;
pub const ZERO: u8 = 0x30;
pub const NINE: u8 = 0x39;
pub const COLON: u8 = 0x3a;
pub const SEMICOLON: u8 = 0x3b;
pub const EQUALS: u8 = 0x3d;
pub const AT: u8 = 0x40;
pub const BACKSLASH: u8 = 0x5c;
pub const TILDE: u8 = 0x7e;

/// The lower-case form of one byte under the ASCII case mapping.
pub open spec fn lower(c: u8) -> u8 {
    if 0x41 <= c <= 0x5a {
        (c + 0x20) as u8
    } else {
        c
    }
}

/// The canonical form of a name: every ASCII capital replaced by its small
/// letter, every other byte kept.
pub open spec fn fold(s: Seq<u8>) -> Seq<u8> {
    Seq::new(s.len(), |i: int| lower(s[i]))
}

pub fn to_lower(c: u8) -> (r: u8)
    ensures
        r == lower(c),
{
    if 0x41 <= c && c <= 0x5a {
        c + 0x20
    } else {
        c
    }
}

/// A fresh copy of `s`.
pub fn to_vec(s: &[u8]) -> (r: Vec<u8>)
    ensures
        r@ == s@,
{
    let mut r: Vec<u8> = Vec::new();
    let mut i: usize = 0;
    while i < s.len()
        invariant
            i <= s.len(),
            r@ == s@.subrange(0, i as int),
        decreases s.len() - i,
    {
        r.push(s[i]);
        i += 1;
        assert(r@ =~= s@.subrange(0, i as int));
    }
    assert(s@.subrange(0, s.len() as int) =~= s@);
    r
}

/// The bytes `s[from..to]`.
pub fn slice(s: &[u8], from: usize, to: usize) -> (r: Vec<u8>)
    requires
        from <= to <= s.len(),
    ensures
        r@ == s@.subrange(from as int, to as int),
{
    let mut r: Vec<u8> = Vec::new();
    let mut i: usize = from;
    while i < to
        invariant
            from <= i <= to <= s.len(),
            r@ == s@.subrange(from as int, i as int),
        decreases to - i,
    {
        r.push(s[i]);
        i += 1;
        assert(r@ =~= s@.subrange(from as int, i as int));
    }
    r
}

/// The bytes of a string.
pub fn from_str(s: &str) -> (r: Vec<u8>)
    ensures
        r@ == s.spec_bytes(),
{
    to_vec(s.as_bytes())
}

/// The folded copy of `s`.
pub fn folded(s: &[u8]) -> (r: Vec<u8>)
    ensures
        r@ == fold(s@),
{
    let mut r: Vec<u8> = Vec::new();
    let mut i: usize = 0;
    while i < s.len()
        invariant
            i <= s.len(),
            r@.len() == i,
            forall|j: int| 0 <= j < i ==> r@[j] == lower(s@[j]),
        decreases s.len() - i,
    {
        r.push(to_lower(s[i]));
        i += 1;
    }
    assert(r@ =~= fold(s@));
    r
}

/// Appends `src` to `dst`.
pub fn append(dst: &mut Vec<u8>, src: &[u8])
    ensures
        final(dst)@ == old(dst)@ + src@,
{
    let mut i: usize = 0;
    while i < src.len()
        invariant
            i <= src.len(),
            dst@ == old(dst)@ + src@.subrange(0, i as int),
        decreases src.len() - i,
    {
        dst.push(src[i]);
        i += 1;
        assert(dst@ =~= old(dst)@ + src@.subrange(0, i as int));
    }
    assert(src@.subrange(0, src.len() as int) =~= src@);
}

/// Appends the bytes of a string to `dst`.
pub fn append_str(dst: &mut Vec<u8>, s: &str)
    ensures
        final(dst)@ == old(dst)@ + s.spec_bytes(),
{
    append(dst, s.as_bytes());
}

/// Whether two byte strings are the same.
pub fn eq(a: &[u8], b: &[u8]) -> (r: bool)
    ensures
        r == (a@ == b@),
{
    if a.len() != b.len() {
        return false;
    }
    let mut i: usize = 0;
    while i < a.len()
        invariant
            i <= a.len(),
            a.len() == b.len(),
            forall|j: int| 0 <= j < i ==> a@[j] == b@[j],
        decreases a.len() - i,
    {
        if a[i] != b[i] {
            return false;
        }
        i += 1;
    }
    assert(a@ =~= b@);
    true
}

/// Whether the bytes are those of the string.
pub fn eq_str(a: &[u8], s: &str) -> (r: bool)
    ensures
        r == (a@ == s.spec_bytes()),
{
    eq(a, s.as_bytes())
}

/// Whether two names are the same under the ASCII case mapping.
pub fn eq_fold(a: &[u8], b: &[u8]) -> (r: bool)
    ensures
        r == (fold(a@) == fold(b@)),
{
    if a.len() != b.len() {
        assert(fold(a@).len() != fold(b@).len());
        return false;
    }
    let mut i: usize = 0;
    while i < a.len()
        invariant
            i <= a.len(),
            a.len() == b.len(),
            forall|j: int| 0 <= j < i ==> lower(a@[j]) == lower(b@[j]),
        decreases a.len() - i,
    {
        if to_lower(a[i]) != to_lower(b[i]) {
            assert(fold(a@)[i as int] != fold(b@)[i as int]);
            return false;
        }
        i += 1;
    }
    assert(fold(a@) =~= fold(b@));
    true
}

/// Whether the bytes are those of the string, capitals and small letters
/// taken as the same.
pub fn eq_fold_str(a: &[u8], s: &str) -> (r: bool)
    ensures
        r == (fold(a@) == fold(s.spec_bytes())),
{
    eq_fold(a, s.as_bytes())
}

/// The first position at or after `from` that holds `c`, or the length of
/// `s` where there is none.
pub open spec fn position(s: Seq<u8>, from: int, c: u8) -> int
    decreases s.len() - from,
{
    if from >= s.len() {
        s.len() as int
    } else if s[from] == c {
        from
    } else {
        position(s, from + 1, c)
    }
}

pub proof fn lemma_position(s: Seq<u8>, from: int, c: u8)
    requires
        0 <= from <= s.len(),
    ensures
        from <= position(s, from, c) <= s.len(),
        position(s, from, c) < s.len() ==> s[position(s, from, c)] == c,
        forall|j: int| from <= j < position(s, from, c) ==> s[j] != c,
    decreases s.len() - from,
{
    if from < s.len() && s[from] != c {
        lemma_position(s, from + 1, c);
    }
}

/// If `at` is the first place at or after `from` that holds `c` (or the end,
/// with no `c` before it), then it is `position(s, from, c)`.
pub proof fn lemma_position_is(s: Seq<u8>, from: int, c: u8, at: int)
    requires
        0 <= from <= at <= s.len(),
        at < s.len() ==> s[at] == c,
        forall|j: int| from <= j < at ==> s[j] != c,
    ensures
        position(s, from, c) == at,
    decreases at - from,
{
    if from < at {
        lemma_position_is(s, from + 1, c, at);
    }
}

pub fn find(s: &[u8], from: usize, c: u8) -> (r: usize)
    requires
        from <= s.len(),
    ensures
        r == position(s@, from as int, c),
        from <= r <= s.len(),
{
    let mut i: usize = from;
    while i < s.len() && s[i] != c
        invariant
            from <= i <= s.len(),
            forall|j: int| from <= j < i ==> s@[j] != c,
        decreases s.len() - i,
    {
        i += 1;
    }
    proof {
        lemma_position_is(s@, from as int, c, i as int);
    }
    i
}

/// Whether `c` occurs in `s`.
pub fn contains(s: &[u8], c: u8) -> (r: bool)
    ensures
        r == s@.contains(c),
{
    let at = find(s, 0, c);
    proof {
        lemma_position(s@, 0, c);
    }
    at < s.len()
}

/// The first place in `s` whose item meets `p`, or the length of `s` where
/// none does.
pub open spec fn first_where<T>(s: Seq<T>, p: spec_fn(T) -> bool) -> int
    decreases s.len(),
{
    if s.len() == 0 {
        0
    } else if p(s[0]) {
        0
    } else {
        1 + first_where(s.subrange(1, s.len() as int), p)
    }
}

pub proof fn lemma_first_where<T>(s: Seq<T>, p: spec_fn(T) -> bool)
    ensures
        0 <= first_where(s, p) <= s.len(),
        first_where(s, p) < s.len() ==> p(s[first_where(s, p)]),
        forall|j: int| 0 <= j < first_where(s, p) ==> !p(#[trigger] s[j]),
    decreases s.len(),
{
    if s.len() > 0 && !p(s[0]) {
        let rest = s.subrange(1, s.len() as int);
        lemma_first_where(rest, p);
        assert forall|j: int| 0 <= j < first_where(s, p) implies !p(#[trigger] s[j]) by {
            if j > 0 {
                assert(rest[j - 1] == s[j]);
            }
        }
        if first_where(s, p) < s.len() {
            assert(rest[first_where(rest, p)] == s[first_where(s, p)]);
        }
    }
}

/// If `at` is the first place of `s` whose item meets `p` (or the end, with
/// none before it), then it is `first_where(s, p)`.
pub proof fn lemma_first_where_is<T>(s: Seq<T>, p: spec_fn(T) -> bool, at: int)
    requires
        0 <= at <= s.len(),
        at < s.len() ==> p(s[at]),
        forall|j: int| 0 <= j < at ==> !p(#[trigger] s[j]),
    ensures
        first_where(s, p) == at,
    decreases s.len(),
{
    if at > 0 {
        let rest = s.subrange(1, s.len() as int);
        assert(!p(s[0]));
        assert forall|j: int| 0 <= j < at - 1 implies !p(#[trigger] rest[j]) by {
            assert(rest[j] == s[j + 1]);
        }
        lemma_first_where_is(rest, p, at - 1);
    }
}

/// The byte strings that a list of buffers holds.
pub open spec fn views(list: Seq<Vec<u8>>) -> Seq<Seq<u8>> {
    Seq::new(list.len(), |i: int| list[i]@)
}

/// The first place in `list` that holds `x`, or the length of `list`
/// where none does.
pub open spec fn index_in(list: Seq<Seq<u8>>, x: Seq<u8>) -> int
    decreases list.len(),
{
    if list.len() == 0 {
        0
    } else if list[0] == x {
        0
    } else {
        1 + index_in(list.subrange(1, list.len() as int), x)
    }
}

pub proof fn lemma_index_in(list: Seq<Seq<u8>>, x: Seq<u8>)
    ensures
        0 <= index_in(list, x) <= list.len(),
        index_in(list, x) < list.len() ==> list[index_in(list, x)] == x,
        forall|j: int| 0 <= j < index_in(list, x) ==> list[j] != x,
        index_in(list, x) < list.len() <==> list.contains(x),
    decreases list.len(),
{
    if list.len() > 0 && list[0] != x {
        let rest = list.subrange(1, list.len() as int);
        lemma_index_in(rest, x);
        assert forall|j: int| 0 <= j < index_in(list, x) implies list[j] != x by {
            if j > 0 {
                assert(rest[j - 1] == list[j]);
            }
        }
        if index_in(list, x) < list.len() {
            assert(rest[index_in(rest, x)] == list[index_in(list, x)]);
        }
        if list.contains(x) {
            let k = choose|k: int| 0 <= k < list.len() && list[k] == x;
            assert(rest[k - 1] == x);
        }
    }
}

/// If `at` is the first place of `list` that holds `x` (or the end, with
/// no `x` before it), then it is `index_in(list, x)`.
pub proof fn lemma_index_in_is(list: Seq<Seq<u8>>, x: Seq<u8>, at: int)
    requires
        0 <= at <= list.len(),
        at < list.len() ==> list[at] == x,
        forall|j: int| 0 <= j < at ==> list[j] != x,
    ensures
        index_in(list, x) == at,
    decreases list.len(),
{
    if at > 0 {
        let rest = list.subrange(1, list.len() as int);
        assert(list[0] != x);
        assert forall|j: int| 0 <= j < at - 1 implies rest[j] != x by {
            assert(rest[j] == list[j + 1]);
        }
        lemma_index_in_is(rest, x, at - 1);
    }
}

/// Whether no byte string stands twice in `list`.
pub open spec fn distinct(list: Seq<Seq<u8>>) -> bool {
    forall|i: int, j: int| 0 <= i < j < list.len() ==> list[i] != list[j]
}

/// `list` with `x` put at its end, unless it holds `x` already.
pub open spec fn list_insert(list: Seq<Seq<u8>>, x: Seq<u8>) -> Seq<Seq<u8>> {
    if list.contains(x) {
        list
    } else {
        list.push(x)
    }
}

/// `list` without `x`.
pub open spec fn list_remove(list: Seq<Seq<u8>>, x: Seq<u8>) -> Seq<Seq<u8>> {
    if list.contains(x) {
        list.remove(index_in(list, x))
    } else {
        list
    }
}

/// The first place in `list` that holds `x`, or the length of `list`.
pub fn list_find(list: &Vec<Vec<u8>>, x: &[u8]) -> (at: usize)
    ensures
        at == index_in(views(list@), x@),
        at <= list@.len(),
        at < list@.len() <==> views(list@).contains(x@),
{
    let mut i: usize = 0;
    while i < list.len()
        invariant
            i <= list@.len(),
            forall|j: int| 0 <= j < i ==> views(list@)[j] != x@,
        ensures
            i < list@.len() ==> views(list@)[i as int] == x@,
        decreases list@.len() - i,
    {
        if eq(list[i].as_slice(), x) {
            break ;
        }
        i += 1;
    }
    proof {
        assert(i < list@.len() ==> views(list@)[i as int] == x@);
        lemma_index_in_is(views(list@), x@, i as int);
        lemma_index_in(views(list@), x@);
    }
    i
}

/// Whether `list` holds `x`.
pub fn list_contains(list: &Vec<Vec<u8>>, x: &[u8]) -> (r: bool)
    ensures
        r == views(list@).contains(x@),
{
    list_find(list, x) < list.len()
}

/// Puts `x` into `list` unless it is there; says whether `list` changed.
pub fn list_add(list: &mut Vec<Vec<u8>>, x: &[u8]) -> (added: bool)
    ensures
        views(final(list)@) == list_insert(views(old(list)@), x@),
        added == !views(old(list)@).contains(x@),
        distinct(views(old(list)@)) ==> distinct(views(final(list)@)),
{
    if list_contains(list, x) {
        false
    } else {
        list.push(to_vec(x));
        proof {
            assert(views(list@) =~= views(old(list)@).push(x@));
            if distinct(views(old(list)@)) {
                assert forall|i: int, j: int| 0 <= i < j < views(list@).len() implies views(
                    list@,
                )[i] != views(list@)[j] by {
                    if j == views(list@).len() - 1 {
                        assert(views(old(list)@)[i] == views(list@)[i]);
                        assert(views(old(list)@).contains(views(list@)[i]));
                    } else {
                        assert(views(old(list)@)[i] != views(old(list)@)[j]);
                    }
                }
            }
        }
        true
    }
}

/// Takes `x` out of `list` if it is there; says whether `list` changed.
pub fn list_drop(list: &mut Vec<Vec<u8>>, x: &[u8]) -> (dropped: bool)
    ensures
        views(final(list)@) == list_remove(views(old(list)@), x@),
        dropped == views(old(list)@).contains(x@),
        distinct(views(old(list)@)) ==> distinct(views(final(list)@)),
{
    let at = list_find(list, x);
    if at < list.len() {
        let _ = list.remove(at);
        proof {
            assert(views(list@) =~= views(old(list)@).remove(at as int));
            if distinct(views(old(list)@)) {
                assert forall|i: int, j: int| 0 <= i < j < views(list@).len() implies views(
                    list@,
                )[i] != views(list@)[j] by {
                    let a = if i < at { i } else { i + 1 };
                    let b = if j < at { j } else { j + 1 };
                    assert(views(old(list)@)[a] != views(old(list)@)[b]);
                }
            }
        }
        true
    } else {
        false
    }
}

/// The decimal digits of `n`, without leading zeros.
pub open spec fn decimal(n: nat) -> Seq<u8>
    decreases n,
{
    if n < 10 {
        seq![(0x30 + n) as u8]
    } else {
        decimal(n / 10).push((0x30 + n % 10) as u8)
    }
}

/// Appends the decimal digits of `n` to `dst`.
pub fn append_decimal(dst: &mut Vec<u8>, n: usize)
    ensures
        final(dst)@ == old(dst)@ + decimal(n as nat),
    decreases n,
{
    if n >= 10 {
        append_decimal(dst, n / 10);
    }
    let d: u8 = (n % 10) as u8;
    dst.push(0x30 + d);
    proof {
        if n < 10 {
            assert(dst@ =~= old(dst)@ + decimal(n as nat));
        } else {
            assert(dst@ =~= old(dst)@ + decimal(n as nat));
        }
    }
}

/// Appends the decimal digits of a time or another 64-bit number to `dst`.
pub fn append_decimal64(dst: &mut Vec<u8>, n: u64)
    ensures
        final(dst)@ == old(dst)@ + decimal(n as nat),
    decreases n,
{
    if n >= 10 {
        append_decimal64(dst, n / 10);
    }
    let d: u8 = (n % 10) as u8;
    dst.push(0x30 + d);
    assert(dst@ =~= old(dst)@ + decimal(n as nat));
}

pub open spec fn is_digit(c: u8) -> bool {
    0x30 <= c <= 0x39
}

pub open spec fn all_digits(s: Seq<u8>) -> bool {
    forall|i: int| 0 <= i < s.len() ==> is_digit(#[trigger] s[i])
}

/// The number that a string of decimal digits writes.
pub open spec fn digits_value(s: Seq<u8>) -> nat
    decreases s.len(),
{
    if s.len() == 0 {
        0
    } else {
        (digits_value(s.drop_last()) * 10 + (s.last() - 0x30)) as nat
    }
}

/// The reading of a number: an optional `+`, then one decimal digit or more,
/// for a value that a `usize` holds.
pub open spec fn number(s: Seq<u8>) -> Option<usize> {
    let digits = if s.len() > 0 && s[0] == PLUS {
        s.subrange(1, s.len() as int)
    } else {
        s
    };
    if digits.len() > 0 && all_digits(digits) && digits_value(digits) <= usize::MAX {
        Some(digits_value(digits) as usize)
    } else {
        None
    }
}

proof fn lemma_digits_value_prefix(s: Seq<u8>, k: int)
    requires
        0 <= k <= s.len(),
        all_digits(s),
    ensures
        digits_value(s.subrange(0, k)) <= digits_value(s),
    decreases s.len() - k,
{
    if k < s.len() {
        let t = s.subrange(0, k + 1);
        assert(t.drop_last() =~= s.subrange(0, k));
        assert(is_digit(s[k]));
        assert(t.last() == s[k]);
        lemma_digits_value_prefix(s, k + 1);
    } else {
        assert(s.subrange(0, k) =~= s);
    }
}

/// Reads a number as `number` defines it.
pub fn parse_usize(s: &[u8]) -> (r: Option<usize>)
    ensures
        r == number(s@),
{
    let start: usize = if s.len() > 0 && s[0] == PLUS {
        1
    } else {
        0
    };
    let ghost digits = s@.subrange(start as int, s.len() as int);
    proof {
        if start == 0 {
            assert(digits =~= s@);
        }
    }
    if start == s.len() {
        return None;
    }
    let mut value: usize = 0;
    let mut i: usize = start;
    while i < s.len()
        invariant
            start <= i <= s.len(),
            digits == s@.subrange(start as int, s.len() as int),
            number(s@) == (if digits.len() > 0 && all_digits(digits) && digits_value(digits)
                <= usize::MAX {
                Some(digits_value(digits) as usize)
            } else {
                None
            }),
            all_digits(digits.subrange(0, i - start)),
            value == digits_value(digits.subrange(0, i - start)),
        decreases s.len() - i,
    {
        let c = s[i];
        if c < ZERO || c > NINE {
            assert(!is_digit(digits[i - start]));
            return None;
        }
        let ghost next = digits.subrange(0, i - start + 1);
        proof {
            assert(next.drop_last() =~= digits.subrange(0, i - start));
            assert(next.last() == c);
            assert forall|j: int| 0 <= j < next.len() implies is_digit(#[trigger] next[j]) by {
                if j < i - start {
                    assert(is_digit(digits.subrange(0, i - start)[j]));
                }
            }
        }
        let d: usize = (c - ZERO) as usize;
        let scaled = value.checked_mul(10);
        let sum = match scaled {
            Some(v) => v.checked_add(d),
            None => None,
        };
        match sum {
            Some(v) => {
                value = v;
            },
            None => {
                proof {
                    assert(digits_value(next) > usize::MAX);
                    if all_digits(digits) {
                        lemma_digits_value_prefix(digits, i - start + 1);
                    }
                }
                return None;
            },
        }
        i += 1;
    }
    assert(digits.subrange(0, s.len() - start) =~= digits);
    Some(value)
}

} // verus!
