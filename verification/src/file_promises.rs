//! What callers can count on of the calls that look into files and for them.

use crate::bytes;
use crate::laws;
use crate::path;
use crate::path::{Lookup, Script};
use crate::shebang;
use crate::shebang::{Data, Line};
use crate::shell;
use vstd::prelude::*;
use vstd::utf8::*;

verus! {

/// Whether `byte` is an ASCII character that is visible.
pub open spec fn is_graphic(byte: u8) -> bool {
    0x21 <= byte <= 0x7e
}

/// Whether `byte` is an ASCII character that is white space.
pub open spec fn is_ascii_space(byte: u8) -> bool {
    0x09 <= byte <= 0x0d || byte == 0x20
}

/// Whether `s` is free of slashes and backslashes.
pub open spec fn has_no_separator(s: Seq<u8>) -> bool {
    forall|i: int| 0 <= i < s.len() ==> #[trigger] s[i] != '/' as u8 && s[i] != '\\' as u8
}

/// What starts and ends with a visible character isn't changed by trimming it.
pub proof fn visible_ends_are_not_trimmed(s: Seq<u8>)
    requires
        s.len() > 0,
        is_graphic(s[0]),
        is_graphic(s.last()),
    ensures
        bytes::trimmed(s) == s,
{
    let n = s.len() as int;
    assert(s.take(1)[0] == s[0]);
    assert(n >= 2 ==> s.take(2)[0] == s[0]);
    assert(n >= 3 ==> s.take(3)[0] == s[0]);
    assert(s.skip(n - 1)[0] == s.last());
    assert(n >= 2 ==> s.skip(n - 2)[1] == s.last());
    assert(n >= 3 ==> s.skip(n - 3)[2] == s.last());
    assert(bytes::leading_space(s) == 0);
    assert(bytes::trailing_space(s) == 0);
}

/// White space at either end makes no difference once it is trimmed.
pub proof fn white_space_at_the_ends_is_trimmed(s: Seq<u8>, byte: u8)
    requires
        is_ascii_space(byte),
    ensures
        bytes::trimmed(seq![byte] + s) == bytes::trimmed(s),
        bytes::trimmed(s + seq![byte]) == bytes::trimmed(s),
{
    let before = seq![byte] + s;
    assert(before.take(1) =~= seq![byte]);
    assert(before.skip(1) =~= s);
    lemma_trimmed_after(s, byte);
}

/// White space at the end makes no difference once it is trimmed.
proof fn lemma_trimmed_after(s: Seq<u8>, byte: u8)
    requires
        is_ascii_space(byte),
    ensures
        bytes::trimmed(s + seq![byte]) == bytes::trimmed(s),
    decreases s.len(),
{
    let long = s + seq![byte];
    let n = bytes::leading_space(s);
    assert(s.len() >= 1 ==> long.take(1) =~= s.take(1));
    assert(s.len() >= 2 ==> long.take(2) =~= s.take(2));
    assert(s.len() >= 3 ==> long.take(3) =~= s.take(3));
    assert(long.take(long.len() as int)[long.len() - 1] == byte);
    assert(s.len() == 0 ==> long.take(1) =~= seq![byte]);
    assert(bytes::leading_space(long) == if s.len() == 0 {
        1
    } else {
        n
    });
    if n > 0 {
        assert(long.skip(n) =~= s.skip(n) + seq![byte]);
        lemma_trimmed_after(s.skip(n), byte);
    } else if s.len() == 0 {
        assert(long.skip(1) =~= s);
        assert(bytes::trim_start(long) == bytes::trim_start(s));
    } else {
        assert(long.skip(long.len() - 1) =~= seq![byte]);
        assert(long.take(long.len() - 1) =~= s);
    }
}

/// Of all that is cut off by trimming, there is nothing but white space.
pub proof fn nothing_but_white_space_is_trimmed(s: Seq<u8>, byte: u8)
    requires
        is_graphic(byte),
        s.contains(byte),
    ensures
        bytes::trimmed(s).contains(byte),
    decreases s.len(),
{
    lemma_trim_start_keeps(s, byte);
    lemma_trim_end_keeps(bytes::trim_start(s), byte);
}

/// A visible character isn't trimmed from the start.
proof fn lemma_trim_start_keeps(s: Seq<u8>, byte: u8)
    requires
        is_graphic(byte),
        s.contains(byte),
    ensures
        bytes::trim_start(s).contains(byte),
    decreases s.len(),
{
    let n = bytes::leading_space(s);
    if n > 0 {
        let at = choose|i: int| 0 <= i < s.len() && s[i] == byte;
        if at < n {
            assert(s.take(n)[at] == byte);
        }
        assert(s.skip(n)[at - n] == byte);
        lemma_trim_start_keeps(s.skip(n), byte);
    }
}

/// A visible character isn't trimmed from the end.
proof fn lemma_trim_end_keeps(s: Seq<u8>, byte: u8)
    requires
        is_graphic(byte),
        s.contains(byte),
    ensures
        bytes::trim_end(s).contains(byte),
    decreases s.len(),
{
    let n = bytes::trailing_space(s);
    if n > 0 {
        let at = choose|i: int| 0 <= i < s.len() && s[i] == byte;
        if at >= s.len() - n {
            assert(s.skip(s.len() - n)[at - (s.len() - n)] == byte);
        }
        assert(s.take(s.len() - n)[at] == byte);
        lemma_trim_end_keeps(s.take(s.len() - n), byte);
    }
}

/// The first line of `#!` and more of the same line is all of it.
proof fn lemma_marked_line(line: Seq<u8>)
    requires
        !line.contains('\n' as u8),
    ensures
        shebang::line_of(seq!['#' as u8, '!' as u8] + line) == shebang::interpreter_and_options(
            line,
        ),
{
    let buf = seq!['#' as u8, '!' as u8] + line;
    assert forall|i: int| 0 <= i < buf.len() implies buf[i] != '\n' as u8 by {
        if i >= 2 {
            assert(buf[i] == line[i - 2]);
            assert(line.contains(line[i - 2]));
        }
    }
    assert(!buf.contains('\n' as u8));
    assert(buf.skip(2) =~= line);
}

/// Where the interpreter and the options are in a line.
proof fn lemma_line(dir: Seq<u8>, name: Seq<u8>, space: bool, options: Seq<u8>)
    requires
        dir.len() > 0,
        dir.last() == '/' as u8 || dir.last() == '\\' as u8,
        has_no_separator(name),
        has_no_separator(options),
        !name.contains(' ' as u8),
        !space ==> options.len() == 0,
    ensures
        shebang::interpreter_and_options(
            dir + name + (if space {
                seq![' ' as u8] + options
            } else {
                seq![]
            }),
        ) == Some(
            shebang::LineView {
                interpreter: bytes::trimmed(dir + name),
                options: if space {
                    bytes::trimmed(options)
                } else {
                    seq![]
                },
            },
        ),
{
    let tail = if space {
        seq![' ' as u8] + options
    } else {
        seq![]
    };
    let line = dir + name + tail;
    let slash = dir.len() - 1;
    assert forall|i: int| slash < i < line.len() implies !bytes::is_separator(
        #[trigger] line[i],
    ) by {
        if i < dir.len() + name.len() {
            assert(line[i] == name[i - dir.len()]);
        } else if i > dir.len() + name.len() {
            assert(line[i] == options[i - dir.len() - name.len() - 1]);
        }
    }
    assert(line[slash] == dir.last());
    bytes::lemma_last_separator(line, slash);
    let rest = line.skip(slash);
    assert forall|i: int| 0 <= i < 1 + name.len() implies rest[i] != ' ' as u8 by {
        if i > 0 {
            assert(rest[i] == name[i - 1]);
            assert(name.contains(name[i - 1]));
        }
    }
    if space {
        let at = 1 + name.len() as int;
        assert(rest[at] == ' ' as u8);
        bytes::lemma_first_of(rest, ' ' as u8, at);
        assert(line.take(slash + at) =~= dir + name);
        assert(line.skip(slash + at + 1) =~= options);
    } else {
        assert(rest.len() == 1 + name.len());
        assert(line =~= dir + name);
    }
}

/// A line that starts with `#!` and holds no space past its last separator is the interpreter, but for
/// white space at its ends. It has no arguments.
pub proof fn shebang_without_options(
    buf: &[u8],
    dir: Seq<u8>,
    name: Seq<u8>,
    data: Option<Data>,
)
    requires
        call_ensures(shebang::parse, (buf,), data),
        buf@ == seq!['#' as u8, '!' as u8] + (dir + name),
        !buf@.contains('\n' as u8),
        dir.len() > 0,
        dir.last() == '/' as u8 || dir.last() == '\\' as u8,
        has_no_separator(name),
        !name.contains(' ' as u8),
    ensures
        data matches Some(data) && data.interpreter@ == bytes::trimmed(dir + name)
            && data.args@.len() == 0,
{
    let line = dir + name;
    assert forall|i: int| 0 <= i < line.len() implies line[i] != '\n' as u8 by {
        assert(buf@[i + 2] == line[i]);
        assert(buf@.contains(buf@[i + 2]));
    }
    lemma_marked_line(line);
    lemma_line(dir, name, false, seq![]);
    assert(line + Seq::<u8>::empty() =~= line);
    assert(data->0@.args.len() == data->0.args@.len());
}

/// In a line that starts with `#!`, the interpreter ends at the first space past its last separator,
/// and all that follows are options, in either case but for white space at the ends. Options that are
/// UTF-8 and split into words like in a shell are arguments by these words, one for each and in the
/// same order, whatever they start with. Others are kept in one piece if they are not UTF-8, and left
/// out if they do not split.
pub proof fn shebang_with_options(
    buf: &[u8],
    dir: Seq<u8>,
    name: Seq<u8>,
    options: Seq<u8>,
    data: Option<Data>,
)
    requires
        call_ensures(shebang::parse, (buf,), data),
        buf@ == seq!['#' as u8, '!' as u8] + (dir + name + (seq![' ' as u8] + options)),
        !buf@.contains('\n' as u8),
        dir.len() > 0,
        dir.last() == '/' as u8 || dir.last() == '\\' as u8,
        has_no_separator(name),
        has_no_separator(options),
        !name.contains(' ' as u8),
    ensures
        data is Some,
        data->0.interpreter@ == bytes::trimmed(dir + name),
        bytes::trimmed(options).len() == 0 ==> data->0.args@.len() == 0,
        !valid_utf8(bytes::trimmed(options)) ==> data->0.args@.len() == 1 && data->0.args@[0]@
            == bytes::trimmed(options),
        bytes::trimmed(options).len() > 0 && valid_utf8(bytes::trimmed(options)) ==> (
        match shell::shell_words_of(decode_utf8(bytes::trimmed(options))) {
            Some(words) => {
                &&& data->0.args@.len() == words.len()
                &&& forall|i: int|
                    0 <= i < words.len() ==> data->0.args@[i]@ == encode_utf8(#[trigger] words[i])
            },
            None => data->0.args@.len() == 0,
        }),
{
    let line = dir + name + (seq![' ' as u8] + options);
    assert forall|i: int| 0 <= i < line.len() implies line[i] != '\n' as u8 by {
        assert(buf@[i + 2] == line[i]);
        assert(buf@.contains(buf@[i + 2]));
    }
    lemma_marked_line(line);
    lemma_line(dir, name, true, options);
    lemma_arguments(data->0);
    reveal_with_fuel(valid_utf8, 1);
}

/// The arguments are what is known of them.
proof fn lemma_arguments(data: Data)
    ensures
        data@.args.len() == data.args@.len(),
        forall|i: int| 0 <= i < data.args@.len() ==> data@.args[i] == #[trigger] data.args@[i]@,
{
}

/// Plain words with a space between each two of them are the arguments of the interpreter.
pub proof fn shebang_with_plain_words(
    buf: &[u8],
    dir: Seq<u8>,
    name: Seq<u8>,
    options: Seq<u8>,
    words: Seq<Seq<char>>,
    data: Option<Data>,
)
    requires
        call_ensures(shebang::parse, (buf,), data),
        buf@ == seq!['#' as u8, '!' as u8] + (dir + name + (seq![' ' as u8] + options)),
        !buf@.contains('\n' as u8),
        dir.len() > 0,
        dir.last() == '/' as u8 || dir.last() == '\\' as u8,
        has_no_separator(name),
        has_no_separator(options),
        !name.contains(' ' as u8),
        is_graphic((dir + name)[0]) && is_graphic((dir + name).last()),
        options == encode_utf8(shell::spaced(words)),
        options.len() > 0 && is_graphic(options[0]) && is_graphic(options.last()),
        forall|i: int| 0 <= i < words.len() ==> shell::is_plain_word(#[trigger] words[i]),
    ensures
        data is Some,
        data->0.interpreter@ == dir + name,
        data->0.args@.len() == words.len(),
        forall|i: int|
            0 <= i < words.len() ==> data->0.args@[i]@ == encode_utf8(#[trigger] words[i]),
{
    let line = dir + name + (seq![' ' as u8] + options);
    assert forall|i: int| 0 <= i < line.len() implies line[i] != '\n' as u8 by {
        assert(buf@[i + 2] == line[i]);
        assert(buf@.contains(buf@[i + 2]));
    }
    lemma_marked_line(line);
    lemma_line(dir, name, true, options);
    visible_ends_are_not_trimmed(dir + name);
    visible_ends_are_not_trimmed(options);
    encode_utf8_decode_utf8(shell::spaced(words));
    encode_utf8_valid_utf8(shell::spaced(words));
    assert(shell::is_line_of(decode_utf8(options), words));
    lemma_arguments(data->0);
}

/// There is no shebang in what doesn't start with `#!`, nor in a line without any separator.
pub proof fn no_shebang_without_marker_and_path(buf: &[u8], data: Option<Data>)
    requires
        call_ensures(shebang::parse, (buf,), data),
        !(buf@.len() >= 2 && buf@[0] == '#' as u8 && buf@[1] == '!' as u8) || has_no_separator(
            buf@,
        ),
    ensures
        data is None,
{
    if !(buf@.len() >= 2 && buf@[0] == '#' as u8 && buf@[1] == '!' as u8) {
        laws::shebang_needs_its_marker(buf@);
    } else if shebang::line_of(buf@) is Some {
        let first = bytes::first_line(buf@)->0;
        if buf@.contains('\n' as u8) {
            bytes::lemma_has_first(buf@, '\n' as u8);
        }
        let line = first.skip(2);
        bytes::lemma_has_last_separator(line);
        let slash = bytes::last_separator(line)->0;
        assert(line[slash] == buf@[slash + 2]);
    }
}

/// In a line that starts with `#!`, what is up to the first space past its last separator is the
/// interpreter, and what follows are options in one piece, in either case but for white space at the
/// ends. It goes together with the words that its options split into to make up the whole shebang.
pub proof fn line_is_interpreter_and_options(
    buf: &[u8],
    dir: Seq<u8>,
    name: Seq<u8>,
    options: Seq<u8>,
    line: Option<Line>,
)
    requires
        call_ensures(shebang::parse_line, (buf,), line),
        buf@ == seq!['#' as u8, '!' as u8] + (dir + name + (seq![' ' as u8] + options)),
        !buf@.contains('\n' as u8),
        dir.len() > 0,
        dir.last() == '/' as u8 || dir.last() == '\\' as u8,
        has_no_separator(name),
        has_no_separator(options),
        !name.contains(' ' as u8),
    ensures
        line is Some,
        line->0.interpreter@ == bytes::trimmed(dir + name),
        line->0.options@ == bytes::trimmed(options),
{
    let all = dir + name + (seq![' ' as u8] + options);
    assert forall|i: int| 0 <= i < all.len() implies all[i] != '\n' as u8 by {
        assert(buf@[i + 2] == all[i]);
        assert(buf@.contains(buf@[i + 2]));
    }
    lemma_marked_line(all);
    lemma_line(dir, name, true, options);
    assert(line->0@.interpreter == bytes::trimmed(dir + name));
    assert(line->0@.options == bytes::trimmed(options));
}

/// There is a line just if there is a shebang, and both have the same interpreter.
pub proof fn line_goes_with_its_shebang(buf: &[u8], line: Option<Line>, data: Option<Data>)
    requires
        call_ensures(shebang::parse_line, (buf,), line),
        call_ensures(shebang::parse, (buf,), data),
    ensures
        line is Some <==> data is Some,
        line is Some ==> line->0.interpreter@ == data->0.interpreter@,
        line is Some && line->0.options@.len() == 0 ==> data->0.args@.len() == 0,
{
    if line is Some {
        assert(line->0@.interpreter == data->0@.interpreter);
        lemma_arguments(data->0);
        assert(line->0@.options == line->0.options@);
    }
}

/// Whether two shebangs are the same, or there is none in either case.
pub open spec fn are_same(first: Option<Data>, second: Option<Data>) -> bool {
    &&& first is Some <==> second is Some
    &&& first is Some ==> {
        &&& first->0.interpreter@ == second->0.interpreter@
        &&& first->0.args@.len() == second->0.args@.len()
        &&& forall|i: int|
            0 <= i < first->0.args@.len() ==> (#[trigger] first->0.args@[i])@
                == second->0.args@[i]@
    }
}

/// Shebangs are the same if their views are.
proof fn lemma_same(first: Option<Data>, second: Option<Data>)
    requires
        path::optional_data(first) == path::optional_data(second),
    ensures
        are_same(first, second),
{
    if first is Some {
        assert(first->0@ == second->0@);
        assert(first->0@.interpreter == second->0@.interpreter);
        lemma_arguments(first->0);
        lemma_arguments(second->0);
        assert forall|i: int| 0 <= i < first->0.args@.len() implies (
        #[trigger] first->0.args@[i])@ == second->0.args@[i]@ by {
            assert(first->0@.args[i] == second->0@.args[i]);
        }
    }
}

/// What follows the first line doesn't matter, and neither does it matter how that line is ended.
pub proof fn shebang_is_that_of_the_first_line(
    line: &[u8],
    rest: Seq<u8>,
    buf: &[u8],
    alone: Option<Data>,
    data: Option<Data>,
)
    requires
        call_ensures(shebang::parse, (line,), alone),
        call_ensures(shebang::parse, (buf,), data),
        !line@.contains('\n' as u8),
        buf@ == line@ + seq!['\n' as u8] + rest || buf@ == line@ + seq!['\r' as u8, '\n' as u8]
            + rest,
    ensures
        are_same(data, alone),
{
    laws::only_the_first_line_counts(line@, rest);
    lemma_same(data, alone);
}

/// The arguments that a line of a shebang stands for are all the words that are given, as many and in
/// the same order, if its options are UTF-8. They are the options themselves otherwise, and there are
/// none if there are no options or no words.
pub proof fn arguments_are_the_given_words(line: Line, words: Option<Vec<String>>, data: Data)
    requires
        call_ensures(Data::from_line, (line, words), data),
    ensures
        data.interpreter@ == line.interpreter@,
        line.options@.len() == 0 ==> data.args@.len() == 0,
        !valid_utf8(line.options@) ==> data.args@.len() == 1 && data.args@[0]@ == line.options@,
        line.options@.len() > 0 && valid_utf8(line.options@) ==> (match words {
            Some(words) => {
                &&& data.args@.len() == words@.len()
                &&& forall|i: int|
                    0 <= i < words@.len() ==> data.args@[i]@ == encode_utf8(#[trigger] words@[i]@)
            },
            None => data.args@.len() == 0,
        }),
{
    lemma_arguments(data);
    reveal_with_fuel(valid_utf8, 1);
    assert(data@.interpreter == line@.interpreter);
    if let Some(words) = words {
        let all = bytes::word_views(words@);
        assert(all.len() == words@.len());
        assert forall|i: int| 0 <= i < words@.len() && line.options@.len() > 0 && valid_utf8(
            line.options@,
        ) implies data.args@[i]@ == encode_utf8(#[trigger] words@[i]@) by {
            assert(all[i] == words@[i]@);
            assert(data@.args[i] == encode_utf8(all[i]));
        }
    }
}

/// What is read of a file is parsed as it is if it's no more than a hundred bytes, and otherwise the
/// first hundred of them are. There is nothing to parse in a file that can't be read.
pub proof fn head_is_parsed_as_it_is(
    head: Option<Vec<u8>>,
    start: &[u8],
    parsed: Option<Data>,
    data: Option<Data>,
)
    requires
        call_ensures(path::parse_head, (head,), data),
        call_ensures(shebang::parse, (start,), parsed),
        head matches Some(head) ==> start@ == (if head@.len() > 100 {
            head@.take(100)
        } else {
            head@
        }),
    ensures
        head is None ==> data is None,
        head is Some ==> are_same(data, parsed),
{
    if head is Some {
        lemma_same(data, parsed);
    }
}

/// What follows the first line of a file never matters to its interpreter: a file that holds a line of
/// less than a hundred bytes, a line feed and whatever comes after it, however long, has the same
/// interpreter with the same arguments as the line alone gives.
pub proof fn rest_of_a_file_never_matters(
    executable: &[u8],
    head: Vec<u8>,
    line: &[u8],
    rest: Seq<u8>,
    alone: Option<Data>,
    parsed: Option<Data>,
    data: Option<Data>,
)
    requires
        call_ensures(shebang::parse, (line,), alone),
        call_ensures(path::parse_head, (Some(head),), parsed),
        call_ensures(path::extract_interpreter, (executable, Some(head), false), data),
        !line@.contains('\n' as u8),
        line@.len() < 100,
        head@ == line@ + seq!['\n' as u8] + rest,
    ensures
        are_same(parsed, alone),
        are_same(data, alone),
{
    if head@.len() > 100 {
        let left = rest.take(99 - line@.len());
        assert(head@.take(100) =~= line@ + seq!['\n' as u8] + left);
        laws::only_the_first_line_counts(line@, left);
    } else {
        laws::only_the_first_line_counts(line@, rest);
    }
    lemma_same(parsed, alone);
    lemma_same(data, alone);
}

/// Off Windows the path of a file doesn't matter, only what it starts with.
pub proof fn path_does_not_matter_off_windows(
    executable: &[u8],
    head: Option<Vec<u8>>,
    parsed: Option<Data>,
    data: Option<Data>,
    script: Option<Script>,
)
    requires
        call_ensures(path::parse_head, (head,), parsed),
        call_ensures(path::extract_interpreter, (executable, head, false), data),
        call_ensures(Script::find, (executable, head, false), script),
    ensures
        are_same(data, parsed),
        script is Some <==> parsed is Some,
        script is Some ==> are_same(Some(script->0.shebang), parsed),
{
    lemma_same(data, parsed);
    if script is Some {
        lemma_same(Some(script->0.shebang), parsed);
    }
}

/// Whether `path` ends with a name, past any drive that it starts with, and with neither a separator
/// nor a dot.
pub open spec fn ends_with_name(path: Seq<u8>) -> bool {
    &&& path.len() > 0
    &&& path.last() != '/' as u8 && path.last() != '\\' as u8 && path.last() != '.' as u8
    &&& path.len() > 2 && path[1] == ':' as u8 ==> path[2] != '.' as u8
}

/// Whether `s` consists of separators.
pub open spec fn all_separators(s: Seq<u8>) -> bool {
    forall|i: int| 0 <= i < s.len() ==> #[trigger] s[i] == '/' as u8 || s[i] == '\\' as u8
}

/// Whether the last name of `path` ends with `.exe` and is more than that.
pub open spec fn is_exe_file(path: Seq<u8>) -> bool {
    let n = path.len();
    &&& n > 4
    &&& path[n - 4] == '.' as u8 && path[n - 3] == 'e' as u8
    &&& path[n - 2] == 'x' as u8 && path[n - 1] == 'e' as u8
    &&& path[n - 5] != '/' as u8 && path[n - 5] != '\\' as u8
}

/// What is true of the interpreter and the script that were found for the file at `path`, where `exe`
/// says whether this is an executable and `parsed` is what the file starts with.
pub open spec fn is_found_for(
    exe: bool,
    parsed: Option<Data>,
    data: Option<Data>,
    script: Option<Script>,
) -> bool {
    if exe {
        data is None && script is None
    } else {
        &&& are_same(data, parsed)
        &&& script is Some <==> parsed is Some
        &&& script is Some ==> are_same(Some(script->0.shebang), parsed)
    }
}

/// What is found depends on whether the path is that of an executable.
proof fn lemma_found(
    executable: &[u8],
    head: Option<Vec<u8>>,
    parsed: Option<Data>,
    data: Option<Data>,
    script: Option<Script>,
    exe: bool,
)
    requires
        call_ensures(path::parse_head, (head,), parsed),
        call_ensures(path::extract_interpreter, (executable, head, true), data),
        call_ensures(Script::find, (executable, head, true), script),
        exe ==> path::is_exe_path(path::windows_form(executable@)),
        !exe ==> path::is_no_exe_path(path::windows_form(executable@)),
    ensures
        is_found_for(exe, parsed, data, script),
{
    if !exe {
        lemma_same(data, parsed);
        if script is Some {
            lemma_same(Some(script->0.shebang), parsed);
        }
    }
}

/// Slashes at the end of a path are no part of what it ends with.
proof fn lemma_slashes_at_the_end(path: Seq<u8>, tail: Seq<u8>)
    requires
        forall|i: int| 0 <= i < tail.len() ==> #[trigger] tail[i] == '/' as u8,
    ensures
        path::without_tail(path + tail, false, false) == path::without_tail(path, false, false),
        path::without_tail(path + tail, true, false) == path::without_tail(path, true, false),
    decreases tail.len(),
{
    if tail.len() == 0 {
        assert(path + tail =~= path);
    } else {
        assert((path + tail).last() == tail.last());
        assert((path + tail).drop_last() =~= path + tail.drop_last());
        assert forall|i: int| 0 <= i < tail.drop_last().len() implies #[trigger] tail.drop_last()[i]
            == '/' as u8 by {
            assert(tail.drop_last()[i] == tail[i]);
        }
        lemma_slashes_at_the_end(path, tail.drop_last());
    }
}

/// How a path with separators at its end is read on Windows.
proof fn lemma_form(path: Seq<u8>, tail: Seq<u8>)
    requires
        ends_with_name(path),
        all_separators(tail),
        !path::is_verbatim(path + tail),
    ensures
        ({
            let form = path::windows_form(path + tail);
            let end = path::end_of(form, false);
            &&& end.len() == path.len()
            &&& path::end_of(form, true) == end
            &&& !path::is_verbatim(form)
            &&& forall|i: int|
                0 <= i < end.len() ==> {
                    &&& #[trigger] end[i] != '\\' as u8
                    &&& end[i] == form[i]
                    &&& (end[i] == '/' as u8 <==> path[i] == '/' as u8 || path[i] == '\\' as u8)
                    &&& path[i] != '\\' as u8 ==> end[i] == path[i]
                }
        }),
{
    let all = path + tail;
    let form = path::windows_form(all);
    let n = path.len() as int;
    let core = form.take(n);
    let rest = form.skip(n);
    assert(form.len() == all.len());
    assert(form =~= core + rest);
    assert forall|i: int| 0 <= i < form.len() implies #[trigger] form[i] != '\\' as u8 && (form[i]
        == '/' as u8 <==> all[i] == '/' as u8 || all[i] == '\\' as u8) && (all[i] != '\\' as u8
        ==> form[i] == all[i]) by {}
    assert forall|i: int| 0 <= i < rest.len() implies #[trigger] rest[i] == '/' as u8 by {
        assert(rest[i] == form[n + i]);
        assert(all[n + i] == tail[i]);
    }
    lemma_slashes_at_the_end(core, rest);
    assert(core.last() == form[n - 1] && all[n - 1] == path[n - 1]);
    assert(core.last() != '/' as u8 && core.last() != '.' as u8 && core.last() != '\\' as u8);
    assert(path::without_tail(core, false, false) == core);
    assert(path::without_tail(core, true, false) == core);
    assert(form.len() >= 4 ==> form[0] != '\\' as u8);
    assert forall|i: int| 0 <= i < core.len() implies core[i] == form[i] && all[i] == path[i] by {}
}

/// On Windows, an executable has no interpreter, whatever it starts with. For any other file only what
/// it starts with matters. The kind of separators makes no difference, nor do those at the end.
pub proof fn executables_have_no_interpreter_on_windows(
    executable: &[u8],
    name: Seq<u8>,
    tail: Seq<u8>,
    head: Option<Vec<u8>>,
    parsed: Option<Data>,
    data: Option<Data>,
    script: Option<Script>,
)
    requires
        call_ensures(path::parse_head, (head,), parsed),
        call_ensures(path::extract_interpreter, (executable, head, true), data),
        call_ensures(Script::find, (executable, head, true), script),
        executable@ == name + tail,
        ends_with_name(name),
        all_separators(tail),
        !(executable@.len() > 1 && all_separators(executable@.take(2))),
    ensures
        is_found_for(is_exe_file(name), parsed, data, script),
{
    let p = executable@;
    if p.len() > 1 {
        assert(p.take(2)[0] == p[0] && p.take(2)[1] == p[1]);
        if bytes::is_separator(p[0]) && bytes::is_separator(p[1]) {
            assert(all_separators(p.take(2)));
        }
    }
    assert(!path::is_verbatim(p));
    if path::has_drive(p) && p.len() > 2 {
        if name.len() > 2 {
            assert(p[1] == name[1] && p[2] == name[2]);
        } else {
            assert(p[2] == tail[2 - name.len()]);
        }
    }
    lemma_form(name, tail);
    let form = path::windows_form(p);
    let end = path::end_of(form, false);
    laws::windows_path_is_an_executable_or_not(p);
    lemma_dot_exe(end);
    if name.len() >= 4 {
        let n = name.len() as int;
        assert(end[n - 4] == '.' as u8 <==> name[n - 4] == '.' as u8);
        assert(end[n - 3] == 'e' as u8 <==> name[n - 3] == 'e' as u8);
        assert(end[n - 2] == 'x' as u8 <==> name[n - 2] == 'x' as u8);
        assert(end[n - 1] == 'e' as u8 <==> name[n - 1] == 'e' as u8);
    }
    if name.len() > 4 {
        assert(end[name.len() - 5] == end[end.len() - 5]);
    }
    lemma_found(executable, head, parsed, data, script, is_exe_file(name));
}

/// The same is true of what is on a share.
pub proof fn executables_on_shares_have_no_interpreter_on_windows(
    executable: &[u8],
    server: Seq<u8>,
    share: Seq<u8>,
    rest: Seq<u8>,
    head: Option<Vec<u8>>,
    parsed: Option<Data>,
    data: Option<Data>,
    script: Option<Script>,
)
    requires
        call_ensures(path::parse_head, (head,), parsed),
        call_ensures(path::extract_interpreter, (executable, head, true), data),
        call_ensures(Script::find, (executable, head, true), script),
        executable@ == seq!['/' as u8, '/' as u8] + server + seq!['/' as u8] + share + seq![
            '/' as u8,
        ] + rest,
        server.len() > 0 && has_no_separator(server) && server != seq!['?' as u8],
        share.len() > 0 && has_no_separator(share),
        rest.len() > 0,
        rest.last() != '/' as u8 && rest.last() != '\\' as u8 && rest.last() != '.' as u8,
    ensures
        is_found_for(is_exe_file(executable@), parsed, data, script),
        script matches Some(script) ==> script.absolute,
{
    let p = executable@;
    let n = p.len() as int;
    let i = 2 + server.len() as int;
    let j = i + 1 + share.len() as int;
    assert(n == j + 1 + rest.len());
    assert(p[0] == '/' as u8 && p[1] == '/' as u8 && p[i] == '/' as u8 && p[j] == '/' as u8);
    assert forall|k: int| 2 <= k < j && k != i implies #[trigger] p[k] != '/' as u8 && p[k]
        != '\\' as u8 by {
        if k < i {
            assert(p[k] == server[k - 2]);
        } else {
            assert(p[k] == share[k - i - 1]);
        }
    }
    if server.len() == 1 && server[0] == '?' as u8 {
        assert(server =~= seq!['?' as u8]);
    }
    assert(p[2] == server[0]);
    assert(path::starts_with_share(p, i, j));
    assert(path::is_surely_absolute(p));
    assert(p.last() == rest.last());
    let none = Seq::<u8>::empty();
    assert(p + none =~= p);
    assert(!path::is_verbatim(p));
    lemma_form(p, none);
    let form = path::windows_form(p);
    let end = path::end_of(form, false);
    assert forall|k: int| 0 <= k < n implies (#[trigger] form[k] == '/' as u8) == (p[k] == '/' as u8
        || p[k] == '\\' as u8) && (p[k] != '\\' as u8 ==> form[k] == p[k]) by {}
    assert(path::starts_with_share(form, i, j)) by {
        assert forall|k: int| 2 <= k < j && k != i implies !bytes::is_separator(
            #[trigger] form[k],
        ) by {
            assert(p[k] != '/' as u8);
        }
    }
    assert(end =~= form);
    lemma_dot_exe(end);
    if n >= 4 {
        assert(end[n - 4] == '.' as u8 <==> p[n - 4] == '.' as u8);
        assert(end[n - 3] == 'e' as u8 <==> p[n - 3] == 'e' as u8);
        assert(end[n - 2] == 'x' as u8 <==> p[n - 2] == 'x' as u8);
        assert(end[n - 1] == 'e' as u8 <==> p[n - 1] == 'e' as u8);
    }
    if is_exe_file(p) {
        path::lemma_exe_dot(end);
        let dot = n - 4;
        assert(path::is_last_dot(end, dot));
        if dot <= j {
            assert(rest.len() <= 3);
            assert(p[j] == '/' as u8);
        }
        assert(path::is_past_prefix(form, dot));
        assert(end[dot - 1] == end[n - 5]);
        assert forall|k: int| dot < k < end.len() implies !bytes::is_separator(
            #[trigger] end[k],
        ) by {
            assert(k == n - 3 || k == n - 2 || k == n - 1);
        }
        assert(path::starts_extension(form, dot));
    }
    lemma_found(executable, head, parsed, data, script, is_exe_file(p));
}

/// An executable on a drive or device has no interpreter even if Windows takes its path verbatim. A
/// file whose path doesn't end with `.exe` has the one that it starts with.
pub proof fn verbatim_executables_have_no_interpreter_on_windows(
    executable: &[u8],
    device: Seq<u8>,
    rest: Seq<u8>,
    head: Option<Vec<u8>>,
    parsed: Option<Data>,
    data: Option<Data>,
    script: Option<Script>,
)
    requires
        call_ensures(path::parse_head, (head,), parsed),
        call_ensures(path::extract_interpreter, (executable, head, true), data),
        call_ensures(Script::find, (executable, head, true), script),
        executable@ == seq!['\\' as u8, '\\' as u8, '?' as u8, '\\' as u8] + device + seq![
            '\\' as u8,
        ] + rest,
        device.len() > 0 && device.len() != 3 && has_no_separator(device),
        rest.len() > 0,
        rest.last() != '/' as u8 && rest.last() != '\\' as u8 && rest.last() != '.' as u8,
    ensures
        is_exe_file(executable@) ==> data is None && script is None,
        !(rest.len() >= 4 && rest.skip(rest.len() - 4) == seq![
            '.' as u8,
            'e' as u8,
            'x' as u8,
            'e' as u8,
        ]) ==> is_found_for(false, parsed, data, script),
{
    let p = executable@;
    let n = p.len() as int;
    let i = 4 + device.len() as int;
    assert(n == i + 1 + rest.len());
    assert(p[0] == '\\' as u8 && p[1] == '\\' as u8 && p[2] == '?' as u8 && p[3] == '\\' as u8);
    assert(p[i] == '\\' as u8);
    assert forall|k: int| 4 <= k < i implies !bytes::is_separator(#[trigger] p[k]) by {
        assert(p[k] == device[k - 4]);
    }
    assert(p.last() == rest.last());
    assert(path::windows_form(p) == p);
    assert(path::end_of(p, true) == p);
    assert(path::end_of(p, false) == p);
    lemma_dot_exe(p);
    assert(path::starts_with_verbatim_device(p, i));
    if is_exe_file(p) {
        path::lemma_exe_dot(p);
        let dot = n - 4;
        assert(path::is_last_dot(p, dot));
        if dot <= i {
            assert(p[i] == '\\' as u8);
        }
        assert forall|k: int| dot < k < p.len() implies !bytes::is_separator(#[trigger] p[k]) by {
            assert(k == n - 3 || k == n - 2 || k == n - 1);
        }
        assert(path::starts_extension(p, dot));
        lemma_found(executable, head, parsed, data, script, true);
    }
    if !(rest.len() >= 4 && rest.skip(rest.len() - 4) == seq![
        '.' as u8,
        'e' as u8,
        'x' as u8,
        'e' as u8,
    ]) {
        if path::ends_with(p, path::dot_exe()) {
            if rest.len() >= 4 {
                assert(rest.skip(rest.len() - 4) =~= p.skip(n - 4));
                assert(rest.skip(rest.len() - 4) =~= seq![
                    '.' as u8,
                    'e' as u8,
                    'x' as u8,
                    'e' as u8,
                ]);
            } else {
                assert(p[i] == '\\' as u8);
                assert(i == n - 4 || i == n - 3 || i == n - 2);
            }
        }
        lemma_found(executable, head, parsed, data, script, false);
    }
}

/// A path that starts with a name isn't absolute.
pub proof fn path_that_starts_with_a_name_is_not_absolute(
    program: &[u8],
    head: Option<Vec<u8>>,
    windows: bool,
    script: Option<Script>,
)
    requires
        call_ensures(Script::find, (program, head, windows), script),
        script is Some,
        program@.len() > 0 ==> program@[0] != '/' as u8 && program@[0] != '\\' as u8,
        program@.len() > 2 ==> program@[1] != ':' as u8,
    ensures
        !script->0.absolute,
{
    assert(script->0@.absolute == script->0.absolute);
}

/// How many paths `lookup` is to look at.
pub open spec fn count(lookup: Lookup) -> int {
    match lookup {
        Lookup::Probe { candidate, rest } => rest@.len() + 1int,
        _ => 0,
    }
}

/// The path that `lookup` looks at after `i` others.
pub open spec fn nth(lookup: Lookup, i: int) -> Seq<u8> {
    match lookup {
        Lookup::Probe { candidate, rest } => if i == 0 {
            candidate@
        } else {
            rest@[i - 1]@
        },
        _ => seq![],
    }
}

/// The paths to look at are those that are pending.
proof fn lemma_pending(lookup: Lookup)
    ensures
        path::pending(lookup@).len() == count(lookup),
        forall|i: int| 0 <= i < count(lookup) ==> path::pending(lookup@)[i] == #[trigger] nth(
            lookup,
            i,
        ),
{
    if let Lookup::Probe { candidate, rest } = lookup {
        assert(bytes::views(rest@).len() == rest@.len());
        assert forall|i: int| 0 <= i < count(lookup) implies path::pending(lookup@)[i]
            == #[trigger] nth(lookup, i) by {
            if i > 0 {
                assert(bytes::views(rest@)[i - 1] == rest@[i - 1]@);
            }
        }
    }
}

/// Whether `command` is a plain name for a file. On Windows it has no drive.
pub open spec fn is_file_name(command: Seq<u8>, windows: bool) -> bool {
    &&& command.len() > 0
    &&& has_no_separator(command)
    &&& command.len() > 1 && command[1] == ':' as u8 ==> !windows && (command.len() > 2
        ==> command[2] != '.' as u8)
    &&& command.len() == 1 ==> command[0] != '.' as u8
    &&& command.len() == 2 ==> !(command[0] == '.' as u8 && command[1] == '.' as u8)
}

/// Whether `path` is that of the file `name` in `dir`: they are put together with one separator in
/// between, which is not needed after an empty directory or a bare drive, and may be the one that `dir`
/// ends with. In a directory that Windows takes verbatim, that separator and the name are at the end.
pub open spec fn is_file_in(path: Seq<u8>, dir: Seq<u8>, name: Seq<u8>) -> bool {
    if dir.len() == 0 {
        path == name
    } else if dir.len() >= 4 && dir.take(4) == seq!['\\' as u8, '\\' as u8, '?' as u8, '\\' as u8] {
        &&& path.len() > name.len()
        &&& path.skip(path.len() - name.len()) == name
        &&& path[path.len() - name.len() - 1] == '/' as u8 || path[path.len() - name.len() - 1]
            == '\\' as u8
    } else if dir.last() == '/' as u8 {
        path == dir + name
    } else {
        ||| path == dir + seq!['/' as u8] + name
        ||| path == dir + seq!['\\' as u8] + name && dir.last() != '\\' as u8
        ||| path == dir + name && (dir.last() == '\\' as u8 || dir.len() == 2 && dir[1] == ':' as u8)
    }
}

/// Whether `path` is that of the file `name` in `dir`, as far as these are UTF-8. Where they aren't, it
/// is made of what stands for them on Windows if it isn't that very path. There, a name with a drive is
/// a path by itself.
pub open spec fn is_path_in(path: Seq<u8>, dir: Seq<u8>, name: Seq<u8>) -> bool {
    ||| is_file_in(path, dir, name)
    ||| !(valid_utf8(dir) && valid_utf8(name)) && path::is_windows_join(
        path::as_text(dir, path::lossy_text_of(dir)),
        path::as_text(name, path::lossy_text_of(name)),
        path,
    )
    ||| name.len() > 1 && name[1] == ':' as u8 && path == name
}

/// `PATH` consists of its directories.
proof fn lemma_roots(dirs: Seq<Seq<u8>>)
    requires
        dirs.len() > 0,
        forall|i: int| 0 <= i < dirs.len() ==> !(#[trigger] dirs[i]).contains(';' as u8),
    ensures
        path::roots_of(laws::joined_roots(dirs)) == dirs,
    decreases dirs.len(),
{
    if dirs.len() == 1 {
        assert(path::roots_of(dirs[0]) =~= dirs);
    } else {
        let rest = dirs.skip(1);
        assert forall|i: int| 0 <= i < rest.len() implies !(#[trigger] rest[i]).contains(
            ';' as u8,
        ) by {
            assert(rest[i] == dirs[i + 1]);
        }
        lemma_roots(rest);
        laws::roots_of_a_longer_path(dirs[0], laws::joined_roots(rest));
        assert(path::roots_of(dirs[0]) =~= seq![dirs[0]]);
        assert(seq![dirs[0]] + rest =~= dirs);
    }
}

/// A path that was put together of a directory and a name is that of a file in it.
proof fn lemma_path_in(dir: Seq<u8>, name: Seq<u8>, path: Seq<u8>)
    requires
        path::is_join(dir, name, path),
    ensures
        is_path_in(path, dir, name),
{
    if dir.len() == 0 {
        assert(dir + name =~= name);
    }
    if dir.len() >= 4 {
        let start = dir.take(4);
        assert(start[0] == dir[0] && start[1] == dir[1] && start[2] == dir[2] && start[3] == dir[3]);
        if path::is_verbatim(dir) {
            assert(start =~= seq!['\\' as u8, '\\' as u8, '?' as u8, '\\' as u8]);
            if path == path::joined(dir, name, false) || path == path::joined(dir, name, true) {
                assert(path.skip(path.len() - name.len()) =~= name);
                if path == dir + name {
                    assert(path[path.len() - name.len() - 1] == dir.last());
                }
            }
        } else if start == seq!['\\' as u8, '\\' as u8, '?' as u8, '\\' as u8] {
            assert(start[0] == '\\' as u8 && start[1] == '\\' as u8);
            assert(start[2] == '?' as u8 && start[3] == '\\' as u8);
        }
    }
}

/// A plain name is looked for in all directories of `PATH`, from left to right and in no others. In
/// each of them comes first what has `.exe` appended to the name, and then the name as it is.
pub proof fn name_is_looked_for_in_every_directory(
    command: &[u8],
    path_value: &[u8],
    windows: bool,
    lookup: Lookup,
    dirs: Seq<Seq<u8>>,
)
    requires
        call_ensures(path::win_path_lookup, (command, path_value, windows), lookup),
        dirs.len() > 0,
        forall|i: int| 0 <= i < dirs.len() ==> !(#[trigger] dirs[i]).contains(';' as u8),
        path_value@ == laws::joined_roots(dirs),
        is_file_name(command@, windows),
        !is_exe_file(command@),
    ensures
        count(lookup) == 2 * dirs.len(),
        forall|i: int|
            0 <= i < dirs.len() ==> {
                &&& is_path_in(
                    nth(lookup, 2 * i),
                    #[trigger] dirs[i],
                    command@ + seq!['.' as u8, 'e' as u8, 'x' as u8, 'e' as u8],
                )
                &&& is_path_in(nth(lookup, 2 * i + 1), dirs[i], command@)
            },
{
    let c = command@;
    lemma_name(c, windows);
    lemma_roots(dirs);
    lemma_pending(lookup);
    let candidates = path::pending(lookup@);
    let exe = c + path::dot_exe();
    assert(exe =~= c + seq!['.' as u8, 'e' as u8, 'x' as u8, 'e' as u8]);
    laws::executables_are_preferred(c, path_value@, windows, candidates, 0);
    assert forall|i: int| 0 <= i < dirs.len() implies {
        &&& is_path_in(
            nth(lookup, 2 * i),
            #[trigger] dirs[i],
            c + seq!['.' as u8, 'e' as u8, 'x' as u8, 'e' as u8],
        )
        &&& is_path_in(nth(lookup, 2 * i + 1), dirs[i], c)
    } by {
        laws::executables_are_preferred(c, path_value@, windows, candidates, i);
        assert(path::roots_of(path_value@)[i] == dirs[i]);
        assert(candidates[2 * i] == nth(lookup, 2 * i));
        assert(candidates[2 * i + 1] == nth(lookup, 2 * i + 1));
        lemma_path_in(dirs[i], exe, nth(lookup, 2 * i));
        lemma_path_in(dirs[i], c, nth(lookup, 2 * i + 1));
    }
}

/// The name of an executable is looked for in all directories of `PATH`, from left to right and in no
/// others, just as it is.
pub proof fn executable_is_looked_for_in_every_directory(
    command: &[u8],
    path_value: &[u8],
    windows: bool,
    lookup: Lookup,
    dirs: Seq<Seq<u8>>,
)
    requires
        call_ensures(path::win_path_lookup, (command, path_value, windows), lookup),
        dirs.len() > 0,
        forall|i: int| 0 <= i < dirs.len() ==> !(#[trigger] dirs[i]).contains(';' as u8),
        path_value@ == laws::joined_roots(dirs),
        is_file_name(command@, windows),
        is_exe_file(command@),
    ensures
        count(lookup) == dirs.len(),
        forall|i: int|
            0 <= i < dirs.len() ==> is_path_in(nth(lookup, i), #[trigger] dirs[i], command@),
{
    let c = command@;
    lemma_name(c, windows);
    lemma_roots(dirs);
    lemma_pending(lookup);
    let candidates = path::pending(lookup@);
    laws::executable_stands_for_itself(c, path_value@, windows, candidates, 0);
    assert forall|i: int| 0 <= i < dirs.len() implies is_path_in(
        nth(lookup, i),
        #[trigger] dirs[i],
        c,
    ) by {
        laws::executable_stands_for_itself(c, path_value@, windows, candidates, i);
        assert(path::roots_of(path_value@)[i] == dirs[i]);
        assert(candidates[i] == nth(lookup, i));
        lemma_path_in(dirs[i], c, nth(lookup, i));
    }
}

/// What is known of a plain name.
proof fn lemma_name(c: Seq<u8>, windows: bool)
    requires
        is_file_name(c, windows),
    ensures
        path::is_looked_up(c, windows),
        path::is_exe_path(c) <==> is_exe_file(c),
        path::is_no_exe_path(c) <==> !is_exe_file(c),
{
    assert forall|i: int| 0 <= i < c.len() implies !bytes::is_separator(#[trigger] c[i]) by {}
    if c == seq!['.' as u8] {
        assert(c[0] == '.' as u8);
    }
    if c == seq!['.' as u8, '.' as u8] {
        assert(c[0] == '.' as u8 && c[1] == '.' as u8);
    }
    assert forall|i: int| 0 <= i < c.len() implies #[trigger] c[i] != '\\' as u8 by {}
    assert(!c.contains('\\' as u8));
    laws::slash_path_is_an_executable_or_not(c);
    assert(path::end_of(c, false) == c);
    lemma_dot_exe(c);
}

/// Whether what ends with `.exe` ends with these four bytes.
proof fn lemma_dot_exe(c: Seq<u8>)
    ensures
        c.len() >= 4 ==> (path::ends_with(c, path::dot_exe()) <==> c[c.len() - 4] == '.' as u8
            && c[c.len() - 3] == 'e' as u8 && c[c.len() - 2] == 'x' as u8 && c[c.len() - 1]
            == 'e' as u8),
{
    let n = c.len() as int;
    if n >= 4 {
        let tail = c.skip(n - 4);
        assert(tail[0] == c[n - 4] && tail[1] == c[n - 3]);
        assert(tail[2] == c[n - 2] && tail[3] == c[n - 1]);
        if path::ends_with(c, path::dot_exe()) {
            assert(tail[0] == '.' as u8 && tail[1] == 'e' as u8);
            assert(tail[2] == 'x' as u8 && tail[3] == 'e' as u8);
        } else {
            assert(tail != path::dot_exe());
            assert(tail.len() == 4);
            if tail[0] == '.' as u8 && tail[1] == 'e' as u8 && tail[2] == 'x' as u8 && tail[3]
                == 'e' as u8 {
                assert(tail =~= path::dot_exe());
            }
        }
    }
}

/// Nothing is looked for if there is a slash or backslash in the command.
pub proof fn paths_are_not_looked_for(
    command: &[u8],
    path_value: &[u8],
    windows: bool,
    lookup: Lookup,
)
    requires
        call_ensures(path::win_path_lookup, (command, path_value, windows), lookup),
        !has_no_separator(command@),
    ensures
        lookup is NotFound,
{
    let i = choose|i: int|
        0 <= i < command@.len() && !(#[trigger] command@[i] != '/' as u8 && command@[i]
            != '\\' as u8);
    assert(bytes::is_separator(command@[i]));
}

/// A lookup ends with the path that it asked about if that is a file, and else goes on with the next one
/// until there are no more. One that has ended stays as it is.
pub proof fn lookup_goes_from_path_to_path(lookup: Lookup, is_file: bool, after: Lookup)
    requires
        call_ensures(Lookup::next, (lookup, is_file), after),
    ensures
        match lookup {
            Lookup::Probe { candidate, rest } => if is_file {
                after matches Lookup::Found(found) && found@ == candidate@
            } else if rest@.len() == 0 {
                after is NotFound
            } else {
                &&& after is Probe
                &&& count(after) == count(lookup) - 1
                &&& forall|i: int|
                    0 <= i < count(after) ==> #[trigger] nth(after, i) == nth(lookup, i + 1)
            },
            Lookup::Found(path) => after matches Lookup::Found(found) && found@ == path@,
            Lookup::NotFound => after is NotFound,
        },
{
    lemma_pending(after);
    lemma_pending(lookup);
    if let Lookup::Probe { candidate, rest } = lookup {
        assert(bytes::views(rest@).len() == rest@.len());
        if !is_file && rest@.len() > 0 {
            assert(path::pending(after@) =~= bytes::views(rest@));
            assert forall|i: int| 0 <= i < count(after) implies #[trigger] nth(after, i) == nth(
                lookup,
                i + 1,
            ) by {
                assert(path::pending(after@)[i] == bytes::views(rest@)[i]);
                assert(bytes::views(rest@)[i] == rest@[i]@);
            }
        }
    }
}

/// The program that runs is the file that was found, or else the command itself.
pub proof fn program_is_what_was_found(lookup: Lookup, command: &[u8], program: Vec<u8>)
    requires
        call_ensures(Lookup::into_program, (lookup, command), program),
    ensures
        lookup matches Lookup::Found(found) ==> program@ == found@,
        !(lookup is Found) ==> program@ == command@,
{
}

} // verus!
