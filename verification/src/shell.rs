//! The language of Bourne shells, as far as commands are inspected for it: which bytes are syntax,
//! how a line splits into words, and how a path is quoted to be left intact.

use crate::bytes;
use bstr::ByteSlice;
use vstd::prelude::*;
use vstd::utf8::*;

verus! {

/// Whether a shell may take `byte` as something else than a part of a plain word.
pub open spec fn is_shell_syntax(byte: u8) -> bool {
    ||| byte == '|' as u8
    ||| byte == '&' as u8
    ||| byte == ';' as u8
    ||| byte == '<' as u8
    ||| byte == '>' as u8
    ||| byte == '(' as u8
    ||| byte == ')' as u8
    ||| byte == '$' as u8
    ||| byte == '`' as u8
    ||| byte == '\\' as u8
    ||| byte == '"' as u8
    ||| byte == '\'' as u8
    ||| byte == ' ' as u8
    ||| byte == '\t' as u8
    ||| byte == '\n' as u8
    ||| byte == '*' as u8
    ||| byte == '?' as u8
    ||| byte == '[' as u8
    ||| byte == '#' as u8
    ||| byte == '~' as u8
    ||| byte == '=' as u8
    ||| byte == '%' as u8
}

/// Whether `byte` is syntax that only a shell can handle. Blanks, quotes and `=` are not among it,
/// as words can be told apart without a shell.
pub open spec fn is_scripting(byte: u8) -> bool {
    ||| byte == '\\' as u8
    ||| byte == '|' as u8
    ||| byte == '&' as u8
    ||| byte == ';' as u8
    ||| byte == '<' as u8
    ||| byte == '>' as u8
    ||| byte == '(' as u8
    ||| byte == ')' as u8
    ||| byte == '$' as u8
    ||| byte == '`' as u8
    ||| byte == '\n' as u8
    ||| byte == '*' as u8
    ||| byte == '?' as u8
    ||| byte == '[' as u8
    ||| byte == '#' as u8
    ||| byte == '~' as u8
    ||| byte == '%' as u8
}

/// Whether any byte of `line` may be shell syntax.
pub open spec fn has_shell_syntax(line: Seq<u8>) -> bool {
    exists|i: int| 0 <= i < line.len() && is_shell_syntax(#[trigger] line[i])
}

/// Whether any byte of `line` needs a shell.
pub open spec fn has_scripting(line: Seq<u8>) -> bool {
    exists|i: int| 0 <= i < line.len() && is_scripting(#[trigger] line[i])
}

/// Whether `byte` stands between words.
pub open spec fn is_blank(byte: u8) -> bool {
    byte == ' ' as u8 || byte == '\t' as u8 || byte == '\n' as u8
}

/// Whether `line` holds nothing that could be a word.
pub open spec fn all_blank(line: Seq<u8>) -> bool {
    forall|i: int| 0 <= i < line.len() ==> is_blank(#[trigger] line[i])
}

/// Whether `line` mentions `$@`, the arguments of the script, at `at`.
pub open spec fn is_dollar_at(line: Seq<u8>, at: int) -> bool {
    0 <= at < line.len() - 1 && line[at] == '$' as u8 && line[at + 1] == '@' as u8
}

/// Whether `line` mentions `$@` anywhere.
pub open spec fn mentions_arguments(line: Seq<u8>) -> bool {
    exists|at: int| #[trigger] is_dollar_at(line, at)
}

/// The words that `shell_words::split` finds in `line`, or `None` if a quote is left open.
pub uninterp spec fn shell_words_of(line: Seq<char>) -> Option<Seq<Seq<char>>>;

/// Whether `word` is not empty and holds nothing that a shell takes as a blank, a quote or the start of
/// a comment.
pub open spec fn is_plain_word(word: Seq<char>) -> bool {
    &&& word.len() > 0
    &&& forall|i: int|
        0 <= i < word.len() ==> !" \t\n'\"\\#"@.contains(#[trigger] word[i])
}

/// The line that `words` make up with a space between each two of them.
pub open spec fn spaced(words: Seq<Seq<char>>) -> Seq<char>
    decreases words.len(),
{
    if words.len() == 0 {
        seq![]
    } else if words.len() == 1 {
        words[0]
    } else {
        words[0] + seq![' '] + spaced(words.skip(1))
    }
}

/// Whether `line` is made up of the plain `words`.
pub open spec fn is_line_of(line: Seq<char>, words: Seq<Seq<char>>) -> bool {
    &&& line == spaced(words)
    &&& forall|i: int| 0 <= i < words.len() ==> is_plain_word(#[trigger] words[i])
}

/// The words of `line`, with quotes removed, or `None` if a quote is left open.
///
/// Calls `shell_words::split`, whose result is named by `shell_words_of`. Without a backslash or a
/// comment in the way, every byte but a blank starts a word or belongs to one, so that there is no
/// word at all just if there are only blanks. A line of plain words with a space between each two of
/// them is split into these words.
#[verifier::external_body]
pub(crate) fn split(line: &str) -> (words: Option<Vec<String>>)
    ensures
        match words {
            Some(words) => shell_words_of(line@) == Some(bytes::word_views(words@)),
            None => shell_words_of(line@) is None,
        },
        !encode_utf8(line@).contains('\\' as u8) && !encode_utf8(line@).contains('#' as u8) ==> ((
        words matches Some(words) && words@.len() == 0) <==> all_blank(encode_utf8(line@))),
        forall|plain: Seq<Seq<char>>| #[trigger]
            is_line_of(line@, plain) ==> (words matches Some(words) && bytes::word_views(words@)
                == plain),
{
    shell_words::split(line).ok()
}

/// `value` with each quote and each exclamation mark moved outside of the single quotes around it.
pub open spec fn escaped(value: Seq<u8>) -> Seq<u8>
    decreases value.len(),
{
    if value.len() == 0 {
        seq![]
    } else if value[0] == '\'' as u8 || value[0] == '!' as u8 {
        seq!['\'' as u8, '\\' as u8, value[0], '\'' as u8] + escaped(value.skip(1))
    } else {
        seq![value[0]] + escaped(value.skip(1))
    }
}

/// `value` in single quotes.
pub open spec fn single_quoted(value: Seq<u8>) -> Seq<u8> {
    seq!['\'' as u8] + escaped(value) + seq!['\'' as u8]
}

/// `value` in single quotes, for a shell to read it as one word.
///
/// Calls `gix_quote::single`, which encloses the value in single quotes, and replaces each `'` and
/// each `!` in it by a closing quote, a backslash, the byte itself, and an opening quote.
#[verifier::external_body]
pub(crate) fn single(value: &[u8]) -> (quoted: Vec<u8>)
    ensures
        quoted@ == single_quoted(value@),
{
    gix_quote::single(value.as_bstr()).into()
}

/// The word that a shell reads from the start of `line` and what it leaves, where `quoted` says
/// that a single quote is open: up to a blank, with single quotes and backslashes removed.
/// There is none if a quote is left open, or if the word holds any other shell syntax.
pub open spec fn read_word(line: Seq<u8>, quoted: bool) -> Option<(Seq<u8>, Seq<u8>)>
    decreases line.len(),
{
    if line.len() == 0 {
        if quoted {
            None
        } else {
            Some((seq![], line))
        }
    } else if quoted {
        if line[0] == '\'' as u8 {
            read_word(line.skip(1), false)
        } else {
            prepend(line[0], read_word(line.skip(1), true))
        }
    } else if is_blank(line[0]) {
        Some((seq![], line))
    } else if line[0] == '\'' as u8 {
        read_word(line.skip(1), true)
    } else if line[0] == '\\' as u8 {
        if line.len() < 2 {
            None
        } else if line[1] == '\n' as u8 {
            read_word(line.skip(2), false)
        } else {
            prepend(line[1], read_word(line.skip(2), false))
        }
    } else if is_shell_syntax(line[0]) {
        None
    } else {
        prepend(line[0], read_word(line.skip(1), false))
    }
}

/// The word that was `read`, with `byte` before it.
pub open spec fn prepend(byte: u8, read: Option<(Seq<u8>, Seq<u8>)>) -> Option<
    (Seq<u8>, Seq<u8>),
> {
    match read {
        Some((word, rest)) => Some((seq![byte] + word, rest)),
        None => None,
    }
}

/// Inside of single quotes, the escaped form of `value` is read as `value`.
proof fn lemma_escaped_is_read_back(value: Seq<u8>, rest: Seq<u8>)
    requires
        rest.len() == 0 || is_blank(rest[0]),
    ensures
        read_word(escaped(value) + seq!['\'' as u8] + rest, true) == Some((value, rest)),
    decreases value.len(),
{
    let line = escaped(value) + seq!['\'' as u8] + rest;
    if value.len() == 0 {
        assert(line.skip(1) =~= rest);
        assert(value =~= seq![]);
        assert(read_word(rest, false) == Some((Seq::<u8>::empty(), rest)));
    } else {
        let tail = escaped(value.skip(1)) + seq!['\'' as u8] + rest;
        lemma_escaped_is_read_back(value.skip(1), rest);
        assert(seq![value[0]] + value.skip(1) =~= value);
        if value[0] == '\'' as u8 || value[0] == '!' as u8 {
            assert(line[0] == '\'' as u8 && line[1] == '\\' as u8 && line[2] == value[0]);
            assert(line[3] == '\'' as u8);
            let unquoted = line.skip(1);
            assert(read_word(line, true) == read_word(unquoted, false));
            assert(unquoted.skip(2).skip(1) =~= tail);
            assert(read_word(unquoted.skip(2), false) == read_word(tail, true));
            assert(read_word(unquoted, false) == prepend(value[0], read_word(tail, true)));
        } else {
            assert(line.skip(1) =~= tail);
        }
    }
}

/// A shell reads a quoted value as one word, and that word is the value: nothing in it is taken as
/// syntax, and it is not split at blanks.
pub proof fn quoted_value_is_one_word(value: Seq<u8>, rest: Seq<u8>)
    requires
        rest.len() == 0 || is_blank(rest[0]),
    ensures
        read_word(single_quoted(value) + rest, false) == Some((value, rest)),
{
    let line = single_quoted(value) + rest;
    lemma_escaped_is_read_back(value, rest);
    assert(line.skip(1) =~= escaped(value) + seq!['\'' as u8] + rest);
    assert(line[0] == '\'' as u8);
}

/// Whether any byte of `line` may be shell syntax.
pub(crate) fn contains_shell_syntax(line: &[u8]) -> (found: bool)
    ensures
        found == has_shell_syntax(line@),
{
    let set: [u8; 22] = [
        '|' as u8,
        '&' as u8,
        ';' as u8,
        '<' as u8,
        '>' as u8,
        '(' as u8,
        ')' as u8,
        '$' as u8,
        '`' as u8,
        '\\' as u8,
        '"' as u8,
        '\'' as u8,
        ' ' as u8,
        '\t' as u8,
        '\n' as u8,
        '*' as u8,
        '?' as u8,
        '[' as u8,
        '#' as u8,
        '~' as u8,
        '=' as u8,
        '%' as u8,
    ];
    let found = bytes::find_byteset(line, set.as_slice());
    proof {
        assert forall|b: u8| set@.contains(b) <==> is_shell_syntax(b) by {
            assert(set@[0] == '|' as u8 && set@[1] == '&' as u8 && set@[2] == ';' as u8);
            assert(set@[3] == '<' as u8 && set@[4] == '>' as u8 && set@[5] == '(' as u8);
            assert(set@[6] == ')' as u8 && set@[7] == '$' as u8 && set@[8] == '`' as u8);
            assert(set@[9] == '\\' as u8 && set@[10] == '"' as u8 && set@[11] == '\'' as u8);
            assert(set@[12] == ' ' as u8 && set@[13] == '\t' as u8 && set@[14] == '\n' as u8);
            assert(set@[15] == '*' as u8 && set@[16] == '?' as u8 && set@[17] == '[' as u8);
            assert(set@[18] == '#' as u8 && set@[19] == '~' as u8 && set@[20] == '=' as u8);
            assert(set@[21] == '%' as u8);
        }
    }
    found.is_some()
}

/// Whether any byte of `line` needs a shell.
pub(crate) fn contains_scripting(line: &[u8]) -> (found: bool)
    ensures
        found == has_scripting(line@),
{
    let set: [u8; 17] = [
        '\\' as u8,
        '|' as u8,
        '&' as u8,
        ';' as u8,
        '<' as u8,
        '>' as u8,
        '(' as u8,
        ')' as u8,
        '$' as u8,
        '`' as u8,
        '\n' as u8,
        '*' as u8,
        '?' as u8,
        '[' as u8,
        '#' as u8,
        '~' as u8,
        '%' as u8,
    ];
    let found = bytes::find_byteset(line, set.as_slice());
    proof {
        assert forall|b: u8| set@.contains(b) <==> is_scripting(b) by {
            assert(set@[0] == '\\' as u8 && set@[1] == '|' as u8 && set@[2] == '&' as u8);
            assert(set@[3] == ';' as u8 && set@[4] == '<' as u8 && set@[5] == '>' as u8);
            assert(set@[6] == '(' as u8 && set@[7] == ')' as u8 && set@[8] == '$' as u8);
            assert(set@[9] == '`' as u8 && set@[10] == '\n' as u8 && set@[11] == '*' as u8);
            assert(set@[12] == '?' as u8 && set@[13] == '[' as u8 && set@[14] == '#' as u8);
            assert(set@[15] == '~' as u8 && set@[16] == '%' as u8);
        }
    }
    found.is_some()
}

/// Whether `line` mentions `$@`.
pub(crate) fn contains_arguments(line: &[u8]) -> (found: bool)
    ensures
        found == mentions_arguments(line@),
{
    let mut i: usize = 0;
    while i < line.len()
        invariant
            i <= line@.len(),
            forall|at: int| 0 <= at < i ==> !#[trigger] is_dollar_at(line@, at),
        decreases line@.len() - i,
    {
        if line.len() - i > 1 && line[i] == '$' as u8 && line[i + 1] == '@' as u8 {
            assert(is_dollar_at(line@, i as int));
            return true;
        }
        i = i + 1;
    }
    false
}

} // verus!
