//! The first line of a script, which names the program to run it with.

use crate::bytes;
use crate::shell;
use vstd::prelude::*;
use vstd::slice::{slice_subrange, slice_to_vec};
use vstd::utf8::*;

verus! {

/// Shebang information as [parsed](parse()) from a buffer that should contain at least one line.
///
/// According to the usual reading of a shebang, everything past the space after the interpreter is a
/// single argument, and splitting it is left to others. As there is no kernel here to do so,
/// it is split just like a shell would do it.
#[derive(Debug, Clone, PartialEq, Eq, PartialOrd, Ord, Hash)]
pub struct Data {
    /// The interpreter to run.
    pub interpreter: Vec<u8>,
    /// The remainder of the line past the space after `interpreter`, without leading or trailing
    /// whitespace, as pre-split arguments just like a shell would do it.
    /// Note that ill-formed UTF-8 prevents argument splitting.
    pub args: Vec<Vec<u8>>,
}

/// What [`Data`] holds.
#[verifier::ext_equal]
pub struct DataView {
    pub interpreter: Seq<u8>,
    pub args: Seq<Seq<u8>>,
}

impl View for Data {
    type V = DataView;

    open spec fn view(&self) -> DataView {
        DataView { interpreter: self.interpreter@, args: bytes::views(self.args@) }
    }
}

/// A shebang whose options are yet to be split.
#[derive(Debug, Clone, PartialEq, Eq)]
pub struct Line {
    /// The interpreter to run.
    pub interpreter: Vec<u8>,
    /// What follows the space after `interpreter`, without leading or trailing whitespace.
    pub options: Vec<u8>,
}

/// What [`Line`] holds.
#[verifier::ext_equal]
pub struct LineView {
    pub interpreter: Seq<u8>,
    pub options: Seq<u8>,
}

impl View for Line {
    type V = LineView;

    open spec fn view(&self) -> LineView {
        LineView { interpreter: self.interpreter@, options: self.options@ }
    }
}

/// What follows the `#!` that `line` starts with.
pub open spec fn after_marker(line: Seq<u8>) -> Option<Seq<u8>> {
    if line.len() >= 2 && line[0] == '#' as u8 && line[1] == '!' as u8 {
        Some(line.skip(2))
    } else {
        None
    }
}

/// The interpreter and the options in `line`, which is the first line without its marker.
/// The interpreter is a path, and ends at the first space past its last separator.
pub open spec fn interpreter_and_options(line: Seq<u8>) -> Option<LineView> {
    match bytes::last_separator(line) {
        Some(slash) => match bytes::first_of(line.skip(slash), ' ' as u8) {
            Some(space) => Some(
                LineView {
                    interpreter: bytes::trimmed(line.take(slash + space)),
                    options: bytes::trimmed(line.skip(slash + space + 1)),
                },
            ),
            None => Some(LineView { interpreter: bytes::trimmed(line), options: seq![] }),
        },
        None => None,
    }
}

/// The shebang that `buf` starts with, with its options in one piece.
pub open spec fn line_of(buf: Seq<u8>) -> Option<LineView> {
    match bytes::first_line(buf) {
        Some(line) => match after_marker(line) {
            Some(line) => interpreter_and_options(line),
            None => None,
        },
        None => None,
    }
}

/// The arguments that `options` stand for, if they split into `words`.
pub open spec fn args_of(options: Seq<u8>, words: Option<Seq<Seq<char>>>) -> Seq<Seq<u8>> {
    if options.len() == 0 {
        seq![]
    } else if valid_utf8(options) {
        match words {
            Some(words) => bytes::encoded(words),
            None => seq![],
        }
    } else {
        seq![options]
    }
}

/// The shebang that `line` stands for, if its options split into `words`.
pub open spec fn data_from(line: LineView, words: Option<Seq<Seq<char>>>) -> DataView {
    DataView { interpreter: line.interpreter, args: args_of(line.options, words) }
}

/// The shebang that `buf` starts with.
pub open spec fn data_of(buf: Seq<u8>) -> Option<DataView> {
    match line_of(buf) {
        Some(line) => Some(data_from(line, shell::shell_words_of(decode_utf8(line.options)))),
        None => None,
    }
}

/// Find the interpreter and its options in the first line of `buf`.
pub fn parse_line(buf: &[u8]) -> (line: Option<Line>)
    ensures
        match line {
            Some(line) => line_of(buf@) == Some(line@),
            None => line_of(buf@) is None,
        },
{
    let line = match bytes::next_line(buf) {
        Some(line) => line,
        None => return None,
    };
    if line.len() < 2 || line[0] != '#' as u8 || line[1] != '!' as u8 {
        return None;
    }
    let line = slice_subrange(line, 2, line.len());
    assert(after_marker(bytes::first_line(buf@)->0) == Some(line@));
    let slash = match bytes::separator_position(line) {
        Some(slash) => slash,
        None => return None,
    };
    let tail = slice_subrange(line, slash, line.len());
    assert(tail@ == line@.skip(slash as int));
    match bytes::position(tail, ' ' as u8) {
        Some(space) => {
            let space = slash + space;
            let interpreter = slice_subrange(line, 0, space);
            let options = slice_subrange(line, space + 1, line.len());
            assert(interpreter@ == line@.take(space as int));
            assert(options@ == line@.skip(space + 1));
            Some(
                Line {
                    interpreter: slice_to_vec(bytes::trim(interpreter)),
                    options: slice_to_vec(bytes::trim(options)),
                },
            )
        },
        None => Some(
            Line { interpreter: slice_to_vec(bytes::trim(line)), options: Vec::new() },
        ),
    }
}

/// Split the `options` of a shebang like a shell would do it, or return `None` if they cannot be
/// split because they are not UTF-8 or leave a quote open.
fn split_options(options: &[u8]) -> (words: Option<Vec<String>>)
    ensures
        match words {
            Some(words) => valid_utf8(options@) && shell::shell_words_of(decode_utf8(options@))
                == Some(bytes::word_views(words@)),
            None => valid_utf8(options@) ==> shell::shell_words_of(decode_utf8(options@)) is None,
        },
        valid_utf8(options@) ==> forall|plain: Seq<Seq<char>>| #[trigger]
            shell::is_line_of(decode_utf8(options@), plain) ==> (words matches Some(words)
                && bytes::word_views(words@) == plain),
{
    match bytes::to_str(options) {
        Some(text) => {
            proof {
                encode_utf8_decode_utf8(text@);
            }
            shell::split(text)
        },
        None => None,
    }
}

impl Data {
    /// The shebang that `line` stands for, given the `words` that its options split into, or `None`
    /// if they do not split.
    pub fn from_line(line: Line, words: Option<Vec<String>>) -> (data: Data)
        ensures
            data@ == data_from(
                line@,
                match words {
                    Some(words) => Some(bytes::word_views(words@)),
                    None => None,
                },
            ),
    {
        let Line { interpreter, options } = line;
        let mut args: Vec<Vec<u8>> = Vec::new();
        if options.len() > 0 {
            if bytes::is_utf8(options.as_slice()) {
                if let Some(words) = words {
                    args = bytes::encode_words(&words);
                }
            } else {
                args.push(options);
            }
        }
        let data = Data { interpreter, args };
        assert(data@.args =~= args_of(
            line@.options,
            match words {
                Some(words) => Some(bytes::word_views(words@)),
                None => None,
            },
        ));
        data
    }
}

/// Parse `buf` to extract all shebang information.
pub fn parse(buf: &[u8]) -> (data: Option<Data>)
    ensures
        match data {
            Some(data) => data_of(buf@) == Some(data@),
            None => data_of(buf@) is None,
        },
        line_of(buf@) matches Some(line) ==> (valid_utf8(line.options)
            ==> forall|plain: Seq<Seq<char>>| #[trigger]
            shell::is_line_of(decode_utf8(line.options), plain) ==> (data matches Some(data)
                && data@ == data_from(line, Some(plain)))),
{
    match parse_line(buf) {
        Some(line) => {
            let words = split_options(line.options.as_slice());
            Some(Data::from_line(line, words))
        },
        None => None,
    }
}

} // verus!
