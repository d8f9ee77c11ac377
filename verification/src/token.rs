use vstd::prelude::*;
use vstd::utf8::{encode_utf8, is_ascii_chars, is_ascii_chars_encode_utf8};

verus! {

/// `String::push` of std. Trusted: the character is appended.
pub assume_specification[ String::push ](s: &mut String, ch: char)
    ensures
        final(s)@ == old(s)@.push(ch),
;

/// The position of the last `sep` in `s`, or `-1` where `s` holds none.
pub open spec fn last_index_of(s: Seq<char>, sep: char) -> int
    decreases s.len(),
{
    if s.len() == 0 {
        -1
    } else if s.last() == sep {
        s.len() - 1
    } else {
        last_index_of(s.drop_last(), sep)
    }
}

/// `s` cut at its last `sep`: what stands before it and what stands after it.
pub open spec fn rsplit(s: Seq<char>, sep: char) -> Option<(Seq<char>, Seq<char>)> {
    let i = last_index_of(s, sep);
    if i < 0 {
        None
    } else {
        Some((s.subrange(0, i), s.subrange(i + 1, s.len() as int)))
    }
}

/// `last_index_of` gives a position of `sep` in `s`, after which `s` holds
/// no `sep`.
pub proof fn lemma_last_index_of(s: Seq<char>, sep: char)
    ensures
        -1 <= last_index_of(s, sep) < s.len(),
        last_index_of(s, sep) >= 0 ==> s[last_index_of(s, sep)] == sep,
        forall|j: int| last_index_of(s, sep) < j < s.len() ==> s[j] != sep,
    decreases s.len(),
{
    if s.len() > 0 && s.last() != sep {
        let front = s.drop_last();
        lemma_last_index_of(front, sep);
        assert forall|j: int| last_index_of(s, sep) < j < s.len() implies s[j] != sep by {
            if j < front.len() {
                assert(front[j] != sep);
            }
        }
    }
}

/// A text with no `sep` in its tail is cut where it was joined.
pub proof fn lemma_rsplit_of_join(head: Seq<char>, tail: Seq<char>, sep: char)
    requires
        !tail.contains(sep),
    ensures
        rsplit(head + seq![sep] + tail, sep) == Some((head, tail)),
{
    let s = head + seq![sep] + tail;
    lemma_last_index_of(s, sep);
    let i = last_index_of(s, sep);
    assert(s[head.len() as int] == sep);
    if i > head.len() {
        assert(tail[i - head.len() - 1] == sep);
    }
    assert(s.subrange(0, i) == head);
    assert(s.subrange(i + 1, s.len() as int) == tail);
}

/// A text is cut exactly where it holds `sep`; the two parts, joined by
/// `sep`, give the text back, and the tail holds no `sep`.
pub proof fn lemma_join_of_rsplit(s: Seq<char>, sep: char)
    ensures
        rsplit(s, sep) is Some <==> s.contains(sep),
        rsplit(s, sep) matches Some((head, tail)) ==> s == head + seq![sep] + tail
            && !tail.contains(sep),
{
    lemma_last_index_of(s, sep);
    let i = last_index_of(s, sep);
    if i >= 0 {
        let head = s.subrange(0, i);
        let tail = s.subrange(i + 1, s.len() as int);
        assert(s[i] == sep);
        assert(s == head + seq![sep] + tail);
        if tail.contains(sep) {
            let j = choose|j: int| 0 <= j < tail.len() && tail[j] == sep;
            assert(s[i + 1 + j] == sep);
        }
    } else {
        if s.contains(sep) {
            let j = choose|j: int| 0 <= j < s.len() && s[j] == sep;
            assert(s[j] == sep);
        }
    }
}

/// The bytes of a joined text are the bytes of its parts, joined.
pub proof fn lemma_utf8_of_join(head: Seq<char>, tail: Seq<char>)
    ensures
        encode_utf8(head + tail) == encode_utf8(head) + encode_utf8(tail),
    decreases head.len(),
{
    if head.len() == 0 {
        assert(head + tail == tail);
    } else {
        assert((head + tail).drop_first() == head.drop_first() + tail);
        lemma_utf8_of_join(head.drop_first(), tail);
    }
}

/// Joining an ASCII text to a text adds one byte for each of its characters.
pub proof fn lemma_utf8_len_of_join(head: Seq<char>, tail: Seq<char>)
    requires
        is_ascii_chars(tail),
    ensures
        encode_utf8(head + tail).len() == encode_utf8(head).len() + tail.len(),
{
    lemma_utf8_of_join(head, tail);
    is_ascii_chars_encode_utf8(tail);
}

/// Cuts `s` at its last `sep`.
pub fn rsplit_once<'a>(s: &'a str, sep: char) -> (parts: Option<(&'a str, &'a str)>)
    ensures
        match parts {
            Some((head, tail)) => rsplit(s@, sep) == Some((head@, tail@)),
            None => rsplit(s@, sep) is None,
        },
{
    let len = s.unicode_len();
    let mut last: Option<usize> = None;
    let mut n: usize = 0;
    for c in it: s.chars()
        invariant
            n == it.index(),
            it.seq() == s@,
            len == s@.len(),
            match last {
                Some(i) => i as int == last_index_of(s@.take(n as int), sep),
                None => last_index_of(s@.take(n as int), sep) == -1,
            },
    {
        assert(s@.take(n + 1).drop_last() == s@.take(n as int));
        if c == sep {
            last = Some(n);
        }
        n = n + 1;
    }
    assert(s@.take(n as int) == s@);
    proof {
        lemma_last_index_of(s@, sep);
    }
    match last {
        Some(i) => Some((s.substring_char(0, i), s.substring_char(i + 1, len))),
        None => None,
    }
}

} // verus!
