//! Byte strings: how they are searched, trimmed and read as text.
//!
//! Commands, arguments and paths are byte strings throughout, as they may hold anything the
//! operating system lets through.

use bstr::ByteSlice;
use vstd::prelude::*;
use vstd::slice::slice_to_vec;
use vstd::utf8::*;

verus! {

/// The bytes of the text `s`.
pub open spec fn text(s: &str) -> Seq<u8> {
    encode_utf8(s@)
}

/// The byte strings that `list` holds.
pub open spec fn views(list: Seq<Vec<u8>>) -> Seq<Seq<u8>> {
    list.map_values(|item: Vec<u8>| item@)
}

/// The bytes of an optional byte string.
pub open spec fn optional_view(bytes: Option<Vec<u8>>) -> Option<Seq<u8>> {
    match bytes {
        Some(bytes) => Some(bytes@),
        None => None,
    }
}

/// The bytes of each of the `words`.
pub open spec fn encoded(words: Seq<Seq<char>>) -> Seq<Seq<u8>> {
    words.map_values(|word: Seq<char>| encode_utf8(word))
}

/// The texts that `words` holds.
pub open spec fn word_views(words: Seq<String>) -> Seq<Seq<char>> {
    words.map_values(|word: String| word@)
}

/// Whether the first `byte` of `s` is the one at `at`.
pub open spec fn is_first(s: Seq<u8>, byte: u8, at: int) -> bool {
    &&& 0 <= at < s.len()
    &&& s[at] == byte
    &&& forall|i: int| 0 <= i < at ==> #[trigger] s[i] != byte
}

/// Where the first `byte` of `s` is.
pub open spec fn first_of(s: Seq<u8>, byte: u8) -> Option<int> {
    if s.contains(byte) {
        Some(choose|at: int| is_first(s, byte, at))
    } else {
        None
    }
}

/// Whether `byte` separates the components of a path, on one platform or another.
pub open spec fn is_separator(byte: u8) -> bool {
    byte == '/' as u8 || byte == '\\' as u8
}

/// Whether the last path separator of `s` is the one at `at`.
pub open spec fn is_last_separator(s: Seq<u8>, at: int) -> bool {
    &&& 0 <= at < s.len()
    &&& is_separator(s[at])
    &&& forall|i: int| at < i < s.len() ==> !is_separator(#[trigger] s[i])
}

/// Whether `s` holds a path separator.
pub open spec fn has_separator(s: Seq<u8>) -> bool {
    exists|i: int| 0 <= i < s.len() && is_separator(#[trigger] s[i])
}

/// Where the last path separator of `s` is.
pub open spec fn last_separator(s: Seq<u8>) -> Option<int> {
    if has_separator(s) {
        Some(choose|at: int| is_last_separator(s, at))
    } else {
        None
    }
}

/// The first line of `s` without its terminator, which is a line feed with or without a carriage
/// return before it.
pub open spec fn first_line(s: Seq<u8>) -> Option<Seq<u8>> {
    match first_of(s, '\n' as u8) {
        Some(end) => if end > 0 && s[end - 1] == '\r' as u8 {
            Some(s.take(end - 1))
        } else {
            Some(s.take(end))
        },
        None => if s.len() == 0 {
            None
        } else {
            Some(s)
        },
    }
}

/// Whether `c` is the UTF-8 form of one character that has Unicode's `White_Space` property.
pub open spec fn is_white_space(c: Seq<u8>) -> bool {
    ||| c.len() == 1 && (0x09 <= c[0] <= 0x0d || c[0] == 0x20)
    ||| c.len() == 2 && c[0] == 0xc2 && (c[1] == 0x85 || c[1] == 0xa0)
    ||| c.len() == 3 && c[0] == 0xe1 && c[1] == 0x9a && c[2] == 0x80
    ||| c.len() == 3 && c[0] == 0xe2 && c[1] == 0x80 && (0x80 <= c[2] <= 0x8a || c[2] == 0xa8
        || c[2] == 0xa9 || c[2] == 0xaf)
    ||| c.len() == 3 && c[0] == 0xe2 && c[1] == 0x81 && c[2] == 0x9f
    ||| c.len() == 3 && c[0] == 0xe3 && c[1] == 0x80 && c[2] == 0x80
}

/// How many bytes the white space character takes that `s` starts with, or 0 if there is none.
pub open spec fn leading_space(s: Seq<u8>) -> int {
    if s.len() >= 1 && is_white_space(s.take(1)) {
        1
    } else if s.len() >= 2 && is_white_space(s.take(2)) {
        2
    } else if s.len() >= 3 && is_white_space(s.take(3)) {
        3
    } else {
        0
    }
}

/// How many bytes the white space character takes that `s` ends with, or 0 if there is none.
pub open spec fn trailing_space(s: Seq<u8>) -> int {
    let n = s.len() as int;
    if n >= 1 && is_white_space(s.skip(n - 1)) {
        1
    } else if n >= 2 && is_white_space(s.skip(n - 2)) {
        2
    } else if n >= 3 && is_white_space(s.skip(n - 3)) {
        3
    } else {
        0
    }
}

/// `s` without the white space that it starts with.
pub open spec fn trim_start(s: Seq<u8>) -> Seq<u8>
    decreases s.len(),
{
    if leading_space(s) > 0 {
        trim_start(s.skip(leading_space(s)))
    } else {
        s
    }
}

/// `s` without the white space that it ends with.
pub open spec fn trim_end(s: Seq<u8>) -> Seq<u8>
    decreases s.len(),
{
    if trailing_space(s) > 0 {
        trim_end(s.take(s.len() - trailing_space(s)))
    } else {
        s
    }
}

/// `s` without the white space at its ends.
pub open spec fn trimmed(s: Seq<u8>) -> Seq<u8> {
    trim_end(trim_start(s))
}

/// The index of the first byte of `bytes` that is in `set`.
///
/// Calls `bstr::ByteSlice::find_byteset`, which returns the index of the first occurrence of any
/// byte of the set, and `None` if none of them occurs.
#[verifier::external_body]
pub(crate) fn find_byteset(bytes: &[u8], set: &[u8]) -> (found: Option<usize>)
    ensures
        match found {
            Some(at) => {
                &&& at < bytes@.len()
                &&& set@.contains(bytes@[at as int])
                &&& forall|i: int| 0 <= i < at ==> !set@.contains(#[trigger] bytes@[i])
            },
            None => forall|i: int| 0 <= i < bytes@.len() ==> !set@.contains(#[trigger] bytes@[i]),
        },
{
    bytes.find_byteset(set)
}

/// The index of the last byte of `bytes` that is in `set`.
///
/// Calls `bstr::ByteSlice::rfind_byteset`, which returns the index of the last occurrence of any
/// byte of the set, and `None` if none of them occurs.
#[verifier::external_body]
fn rfind_byteset(bytes: &[u8], set: &[u8]) -> (found: Option<usize>)
    ensures
        match found {
            Some(at) => {
                &&& at < bytes@.len()
                &&& set@.contains(bytes@[at as int])
                &&& forall|i: int|
                    at < i < bytes@.len() ==> !set@.contains(#[trigger] bytes@[i])
            },
            None => forall|i: int| 0 <= i < bytes@.len() ==> !set@.contains(#[trigger] bytes@[i]),
        },
{
    bytes.rfind_byteset(set)
}

/// The index of the first `byte` of `bytes`.
///
/// Calls `bstr::ByteSlice::find_byte`, which returns the index of the first occurrence of the byte,
/// and `None` if it does not occur.
#[verifier::external_body]
fn find_byte(bytes: &[u8], byte: u8) -> (found: Option<usize>)
    ensures
        match found {
            Some(at) => is_first(bytes@, byte, at as int),
            None => !bytes@.contains(byte),
        },
{
    bytes.find_byte(byte)
}

/// The first line of `bytes`, without its terminator.
///
/// Calls `bstr::ByteSlice::lines` and takes the first line that the iterator yields. It recognizes
/// `\n` and `\r\n` as terminators, and yields nothing for an empty byte string.
#[verifier::external_body]
pub(crate) fn next_line(bytes: &[u8]) -> (line: Option<&[u8]>)
    ensures
        match line {
            Some(line) => first_line(bytes@) == Some(line@),
            None => first_line(bytes@) is None,
        },
{
    bytes.lines().next()
}

/// `bytes` without leading and trailing white space.
///
/// Calls `bstr::ByteSlice::trim`, which removes the characters that have Unicode's `White_Space`
/// property from the start and then from the end.
#[verifier::external_body]
pub(crate) fn trim(bytes: &[u8]) -> (rest: &[u8])
    ensures
        rest@ == trimmed(bytes@),
{
    bytes.trim()
}

/// `bytes` as text, if they are UTF-8.
///
/// Calls `bstr::ByteSlice::to_str`, which checks that the bytes are UTF-8 and, if they are, returns
/// the very same bytes as text.
#[verifier::external_body]
pub(crate) fn to_str(bytes: &[u8]) -> (s: Option<&str>)
    ensures
        match s {
            Some(s) => valid_utf8(bytes@) && encode_utf8(s@) == bytes@,
            None => !valid_utf8(bytes@),
        },
{
    bytes.to_str().ok()
}

/// There is but one first occurrence of a byte.
pub proof fn lemma_first_of(s: Seq<u8>, byte: u8, at: int)
    requires
        is_first(s, byte, at),
    ensures
        first_of(s, byte) == Some(at),
{
    let other = choose|at: int| is_first(s, byte, at);
    assert(is_first(s, byte, other));
    assert(s[at] == byte && s[other] == byte);
}

/// A byte that occurs has a first occurrence.
pub proof fn lemma_has_first(s: Seq<u8>, byte: u8)
    requires
        s.contains(byte),
    ensures
        exists|at: int| is_first(s, byte, at),
        first_of(s, byte) is Some,
        is_first(s, byte, first_of(s, byte)->0),
    decreases s.len(),
{
    if s.last() == byte && !s.drop_last().contains(byte) {
        assert forall|i: int| 0 <= i < s.len() - 1 implies #[trigger] s[i] != byte by {
            assert(s.drop_last()[i] == s[i]);
        }
        assert(is_first(s, byte, s.len() - 1));
    } else {
        let at = choose|i: int| 0 <= i < s.len() && s[i] == byte;
        if at < s.len() - 1 {
            assert(s.drop_last()[at] == byte);
        }
        lemma_has_first(s.drop_last(), byte);
        let at = choose|at: int| is_first(s.drop_last(), byte, at);
        assert forall|i: int| 0 <= i < at implies #[trigger] s[i] != byte by {
            assert(s.drop_last()[i] == s[i]);
        }
        assert(is_first(s, byte, at));
    }
}

/// There is but one last separator.
pub(crate) proof fn lemma_last_separator(s: Seq<u8>, at: int)
    requires
        is_last_separator(s, at),
    ensures
        last_separator(s) == Some(at),
{
    assert(is_separator(s[at]));
    let other = choose|at: int| is_last_separator(s, at);
    assert(is_last_separator(s, other));
    assert(is_separator(s[other]));
}

/// What holds a separator has a last one.
pub(crate) proof fn lemma_has_last_separator(s: Seq<u8>)
    requires
        has_separator(s),
    ensures
        last_separator(s) is Some,
        is_last_separator(s, last_separator(s)->0),
{
    lemma_some_separator_is_last(s);
}

/// What holds a separator has a last one.
proof fn lemma_some_separator_is_last(s: Seq<u8>)
    requires
        has_separator(s),
    ensures
        exists|at: int| is_last_separator(s, at),
    decreases s.len(),
{
    if is_separator(s.last()) {
        assert(is_last_separator(s, s.len() - 1));
    } else {
        let at = choose|i: int| 0 <= i < s.len() && is_separator(#[trigger] s[i]);
        assert(s.drop_last()[at] == s[at]);
        lemma_some_separator_is_last(s.drop_last());
        let at = choose|at: int| is_last_separator(s.drop_last(), at);
        assert forall|i: int| at < i < s.len() implies !is_separator(#[trigger] s[i]) by {
            if i < s.len() - 1 {
                assert(s.drop_last()[i] == s[i]);
            }
        }
        assert(is_last_separator(s, at));
    }
}

/// Trimming leaves no white space at the start.
proof fn lemma_trim_start(s: Seq<u8>)
    ensures
        leading_space(trim_start(s)) == 0,
    decreases s.len(),
{
    if leading_space(s) > 0 {
        lemma_trim_start(s.skip(leading_space(s)));
    }
}

/// Trimming leaves no white space at the end, and adds none at the start.
proof fn lemma_trim_end(s: Seq<u8>)
    ensures
        trailing_space(trim_end(s)) == 0,
        leading_space(s) == 0 ==> leading_space(trim_end(s)) == 0,
    decreases s.len(),
{
    if trailing_space(s) > 0 {
        let rest = s.take(s.len() - trailing_space(s));
        lemma_trim_end(rest);
        assert(rest.len() >= 1 ==> rest.take(1) =~= s.take(1));
        assert(rest.len() >= 2 ==> rest.take(2) =~= s.take(2));
        assert(rest.len() >= 3 ==> rest.take(3) =~= s.take(3));
    }
}

/// What is trimmed neither starts nor ends with white space.
pub proof fn trimmed_has_no_outer_space(s: Seq<u8>)
    ensures
        leading_space(trimmed(s)) == 0,
        trailing_space(trimmed(s)) == 0,
{
    lemma_trim_start(s);
    lemma_trim_end(trim_start(s));
}

/// A carriage return at the end is trimmed.
pub(crate) proof fn lemma_trimmed_push(s: Seq<u8>)
    ensures
        trimmed(s.push('\r' as u8)) == trimmed(s),
    decreases s.len(),
{
    let long = s.push('\r' as u8);
    let n = leading_space(s);
    assert(s.len() >= 1 ==> long.take(1) =~= s.take(1));
    assert(s.len() >= 2 ==> long.take(2) =~= s.take(2));
    assert(s.len() >= 3 ==> long.take(3) =~= s.take(3));
    assert(long.take(long.len() as int)[long.len() - 1] == '\r' as u8);
    assert(leading_space(long) == if s.len() == 0 {
        1
    } else {
        n
    });
    if n > 0 {
        assert(long.skip(n) =~= s.skip(n).push('\r' as u8));
        lemma_trimmed_push(s.skip(n));
    } else if s.len() == 0 {
        assert(long.skip(1) =~= s);
        assert(trim_start(long) == trim_start(s));
    } else {
        assert(long.skip(long.len() - 1) =~= seq!['\r' as u8]);
        assert(long.take(long.len() - 1) =~= s);
    }
}

/// A separator is no white space, and so isn't trimmed.
proof fn lemma_trim_start_keeps(s: Seq<u8>, byte: u8)
    requires
        is_separator(byte),
        s.contains(byte),
    ensures
        trim_start(s).contains(byte),
    decreases s.len(),
{
    let n = leading_space(s);
    if n > 0 {
        let at = choose|i: int| 0 <= i < s.len() && s[i] == byte;
        if at < n {
            assert(s.take(n)[at] == byte);
        }
        assert(s.skip(n)[at - n] == byte);
        lemma_trim_start_keeps(s.skip(n), byte);
    }
}

/// A separator is no white space, and so isn't trimmed.
proof fn lemma_trim_end_keeps(s: Seq<u8>, byte: u8)
    requires
        is_separator(byte),
        s.contains(byte),
    ensures
        trim_end(s).contains(byte),
    decreases s.len(),
{
    let n = trailing_space(s);
    if n > 0 {
        let at = choose|i: int| 0 <= i < s.len() && s[i] == byte;
        if at >= s.len() - n {
            assert(s.skip(s.len() - n)[at - (s.len() - n)] == byte);
        }
        assert(s.take(s.len() - n)[at] == byte);
        lemma_trim_end_keeps(s.take(s.len() - n), byte);
    }
}

/// A separator is no white space, and so isn't trimmed.
pub(crate) proof fn lemma_trimmed_keeps(s: Seq<u8>, byte: u8)
    requires
        is_separator(byte),
        s.contains(byte),
    ensures
        trimmed(s).contains(byte),
{
    lemma_trim_start_keeps(s, byte);
    lemma_trim_end_keeps(trim_start(s), byte);
}

/// Where the first `byte` of `bytes` is.
pub(crate) fn position(bytes: &[u8], byte: u8) -> (found: Option<usize>)
    ensures
        match found {
            Some(at) => at < bytes@.len() && first_of(bytes@, byte) == Some(at as int) && is_first(
                bytes@,
                byte,
                at as int,
            ),
            None => first_of(bytes@, byte) is None,
        },
{
    let found = find_byte(bytes, byte);
    if let Some(at) = found {
        proof {
            lemma_first_of(bytes@, byte, at as int);
        }
    }
    found
}

/// Where the last path separator of `bytes` is.
pub(crate) fn separator_position(bytes: &[u8]) -> (found: Option<usize>)
    ensures
        match found {
            Some(at) => last_separator(bytes@) == Some(at as int) && is_last_separator(
                bytes@,
                at as int,
            ),
            None => last_separator(bytes@) is None,
        },
{
    let separators: [u8; 2] = ['/' as u8, '\\' as u8];
    let found = rfind_byteset(bytes, separators.as_slice());
    proof {
        assert(separators@[0] == '/' as u8 && separators@[1] == '\\' as u8);
        assert(forall|b: u8| separators@.contains(b) <==> is_separator(b));
        if let Some(at) = found {
            assert(is_last_separator(bytes@, at as int));
            let other = choose|at: int| is_last_separator(bytes@, at);
            assert(is_last_separator(bytes@, other));
            assert(is_separator(bytes@[at as int]) && is_separator(bytes@[other]));
        }
    }
    found
}

/// A copy of the bytes of the text `s`.
pub(crate) fn text_bytes(s: &str) -> (bytes: Vec<u8>)
    ensures
        bytes@ == text(s),
{
    slice_to_vec(s.as_bytes())
}

/// The bytes of each of the `words`.
pub(crate) fn encode_words(words: &Vec<String>) -> (list: Vec<Vec<u8>>)
    ensures
        views(list@) == encoded(word_views(words@)),
{
    let mut list: Vec<Vec<u8>> = Vec::new();
    let mut i: usize = 0;
    while i < words.len()
        invariant
            i <= words@.len(),
            list@.len() == i,
            forall|j: int| 0 <= j < i ==> #[trigger] list@[j]@ == encode_utf8(words@[j]@),
        decreases words@.len() - i,
    {
        list.push(text_bytes(words[i].as_str()));
        i = i + 1;
    }
    assert(views(list@) =~= encoded(word_views(words@)));
    list
}

/// Whether `bytes` are UTF-8.
pub(crate) fn is_utf8(bytes: &[u8]) -> (utf8: bool)
    ensures
        utf8 == valid_utf8(bytes@),
{
    to_str(bytes).is_some()
}

} // verus!
