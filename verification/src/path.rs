//! Finding a program on Windows, where there is no kernel to look at its first line.

use crate::bytes;
use crate::shebang;
use crate::shebang::{Data, DataView};
use bstr::ByteSlice;
use vstd::prelude::*;
use vstd::slice::{slice_subrange, slice_to_vec};
use vstd::utf8::*;

verus! {

/// How much of a file is read to find a shebang in its first line, just like Git.
pub const HEAD_LEN: usize = 100;

/// Whether `s` ends with `end`.
pub open spec fn ends_with(s: Seq<u8>, end: Seq<u8>) -> bool {
    s.len() >= end.len() && s.skip(s.len() - end.len()) == end
}

/// `.exe`
pub open spec fn dot_exe() -> Seq<u8> {
    seq!['.' as u8, 'e' as u8, 'x' as u8, 'e' as u8]
}

/// Whether `path` starts with the letter of a drive, like `c:`.
pub open spec fn has_drive(path: Seq<u8>) -> bool {
    &&& path.len() >= 2
    &&& path[1] == ':' as u8
    &&& ('a' as u8 <= path[0] <= 'z' as u8 || 'A' as u8 <= path[0] <= 'Z' as u8)
}

/// Whether `command` is a name that a file can have in a directory.
pub open spec fn is_name(command: Seq<u8>) -> bool {
    &&& command.len() > 0
    &&& !bytes::has_separator(command)
    &&& command != seq!['.' as u8]
    &&& command != seq!['.' as u8, '.' as u8]
}

/// Whether the last dot of `s` is the one at `at`.
pub open spec fn is_last_dot(s: Seq<u8>, at: int) -> bool {
    &&& 0 <= at < s.len()
    &&& s[at] == '.' as u8
    &&& forall|i: int| at < i < s.len() ==> #[trigger] s[i] != '.' as u8
}

/// Whether `path` starts with two separators, to name a share or a device on Windows.
pub open spec fn has_double_separator(path: Seq<u8>) -> bool {
    path.len() >= 2 && bytes::is_separator(path[0]) && bytes::is_separator(path[1])
}

/// Whether `path` starts with `\\?\`, by which Windows takes what follows verbatim.
pub open spec fn is_verbatim(path: Seq<u8>) -> bool {
    &&& path.len() >= 4
    &&& path[0] == '\\' as u8
    &&& path[1] == '\\' as u8
    &&& path[2] == '?' as u8
    &&& path[3] == '\\' as u8
}

/// Whether `path` starts with a share, like `//server/share/`, whose server ends at `server` and
/// whose name ends at `share`.
pub open spec fn starts_with_share(path: Seq<u8>, server: int, share: int) -> bool {
    &&& has_double_separator(path)
    &&& 2 < server && server + 1 < share < path.len()
    &&& bytes::is_separator(path[server])
    &&& bytes::is_separator(path[share])
    &&& forall|i: int|
        2 <= i < share && i != server ==> !bytes::is_separator(#[trigger] path[i])
    &&& !(server == 3 && path[2] == '?' as u8)
}

/// Whether `path`, which is taken verbatim, starts with a share whose server ends at `server` and whose
/// name ends at `share`, like `\\?\UNC\server\share\`.
pub open spec fn starts_with_verbatim_share(path: Seq<u8>, server: int, share: int) -> bool {
    &&& 8 < server && server + 1 < share < path.len()
    &&& path[4] == 'U' as u8 && path[5] == 'N' as u8 && path[6] == 'C' as u8
    &&& path[7] == '\\' as u8
    &&& path[server] == '\\' as u8
    &&& path[share] == '\\' as u8
    &&& forall|i: int|
        8 <= i < share && i != server ==> !bytes::is_separator(#[trigger] path[i])
}

/// Whether `path`, which is taken verbatim, starts with a drive or device that ends at `device`, like
/// `\\?\c:\`. One of three letters is left out, as `UNC` stands for a share.
pub open spec fn starts_with_verbatim_device(path: Seq<u8>, device: int) -> bool {
    &&& 4 < device < path.len()
    &&& device != 7
    &&& path[device] == '\\' as u8
    &&& forall|i: int| 4 <= i < device ==> !bytes::is_separator(#[trigger] path[i])
}

/// Whether what comes at `at` in `path` is surely not within the name of a share or a device.
pub open spec fn is_past_prefix(path: Seq<u8>, at: int) -> bool {
    if is_verbatim(path) {
        ||| exists|device: int| #[trigger] starts_with_verbatim_device(path, device) && device < at
        ||| exists|server: int, share: int| #[trigger]
            starts_with_verbatim_share(path, server, share) && share < at
    } else {
        has_double_separator(path) ==> exists|server: int, share: int| #[trigger]
            starts_with_share(path, server, share) && share < at
    }
}

/// Whether `byte` separates the components of a path on Windows or elsewhere. In one that Windows takes
/// verbatim, a slash does not.
pub open spec fn separates(byte: u8, windows: bool, verbatim: bool) -> bool {
    ||| byte == '\\' as u8 && windows
    ||| byte == '/' as u8 && !(windows && verbatim)
}

/// `path` without the separators that it ends with. References to the current directory at its end are
/// dropped as well, but not in a path that Windows takes verbatim.
pub open spec fn without_tail(path: Seq<u8>, windows: bool, verbatim: bool) -> Seq<u8>
    decreases path.len(),
{
    if path.len() > 0 && separates(path.last(), windows, verbatim) {
        without_tail(path.drop_last(), windows, verbatim)
    } else if path.len() >= 2 && path.last() == '.' as u8 && separates(
        path[path.len() - 2],
        windows,
        verbatim,
    ) && !(windows && verbatim) {
        without_tail(path.take(path.len() - 2), windows, verbatim)
    } else {
        path
    }
}

/// `path` up to the end of the last name in it, on Windows or elsewhere.
pub open spec fn end_of(path: Seq<u8>, windows: bool) -> Seq<u8> {
    without_tail(path, windows, is_verbatim(path))
}

/// Whether the dot at `at` starts the extension of the file that `path` names, on any platform.
pub open spec fn starts_extension(path: Seq<u8>, at: int) -> bool {
    let end = end_of(path, false);
    &&& is_last_dot(end, at)
    &&& 0 < at < end.len() - 1
    &&& !bytes::is_separator(end[at - 1])
    &&& !(at == 2 && has_drive(path))
    &&& is_past_prefix(path, at)
    &&& forall|i: int| at < i < end.len() ==> !bytes::is_separator(#[trigger] end[i])
}

/// Whether `text` is `bytes` if these are UTF-8, and else something that isn't all ASCII either.
pub open spec fn is_text_of(bytes: Seq<u8>, text: Seq<u8>) -> bool {
    if valid_utf8(bytes) {
        text == bytes
    } else {
        exists|i: int| 0 <= i < text.len() && #[trigger] text[i] >= 0x80
    }
}

/// Whether `extension` is what follows the last dot of `path` on Windows or elsewhere, with something
/// before that dot in the name that it is in.
pub open spec fn follows_last_dot(path: Seq<u8>, windows: bool, extension: Seq<u8>) -> bool {
    let end = end_of(path, windows);
    exists|dot: int|
        {
            &&& #[trigger] is_last_dot(end, dot)
            &&& dot > 0
            &&& !separates(end[dot - 1], windows, is_verbatim(path))
            &&& is_text_of(end.skip(dot + 1), extension)
        }
}

/// The extension of the file that `path` names, without its dot.
///
/// Calls `std::path::Path::extension`, which returns the portion of the file name after its final
/// dot, and `None` if there is no file name, no dot in it, or only a leading one. What the file name
/// is depends on the platform, as backslashes, drives and shares are special on Windows only. So what
/// is returned follows the last dot as it is on Windows or elsewhere, and it isn't said which of the
/// two it is. There is an extension if both agree that its dot is within a file name. Bytes that are
/// not UTF-8 are changed by `bstr::ByteSlice::to_path_lossy` on Windows, but ASCII isn't.
#[verifier::external_body]
fn extension(path: &[u8]) -> (extension: Option<Vec<u8>>)
    ensures
        extension matches Some(extension) ==> follows_last_dot(path@, false, extension@)
            || follows_last_dot(path@, true, extension@),
        (exists|dot: int| #[trigger] starts_extension(path@, dot)) ==> extension is Some,
{
    let path = path.to_path_lossy();
    Some(gix_path::os_str_into_bstr(path.extension()?).ok()?.to_vec())
}

/// The path of the file `name` in the directory `root` as it is on Windows or elsewhere, with the
/// separator of that platform in between where one is needed.
pub open spec fn joined(root: Seq<u8>, name: Seq<u8>, windows: bool) -> Seq<u8> {
    if windows {
        if root.len() == 0 || bytes::is_separator(root.last()) || (root.len() == 2 && has_drive(
            root,
        )) {
            root + name
        } else {
            root + seq!['\\' as u8] + name
        }
    } else {
        if root.len() == 0 || root.last() == '/' as u8 {
            root + name
        } else {
            root + seq!['/' as u8] + name
        }
    }
}

/// Whether `path` ends with the file `name` and a separator before it.
pub open spec fn ends_with_file(path: Seq<u8>, name: Seq<u8>) -> bool {
    &&& path.len() > name.len()
    &&& ends_with(path, name)
    &&& bytes::is_separator(path[path.len() - name.len() - 1])
}

/// Whether `root`, which is taken verbatim, is as Windows writes it: with backslashes only, none at its
/// end, and without any component that is empty or refers to the current or parent directory.
pub open spec fn is_normal(root: Seq<u8>) -> bool {
    &&& root.last() != '\\' as u8
    &&& forall|i: int|
        3 <= i < root.len() && #[trigger] root[i] == '\\' as u8 ==> {
            &&& root[i + 1] != '\\' as u8
            &&& root[i + 1] == '.' as u8 ==> {
                &&& i + 2 < root.len() && root[i + 2] != '\\' as u8
                &&& root[i + 2] == '.' as u8 ==> i + 3 < root.len() && root[i + 3] != '\\' as u8
            }
        }
    &&& !root.contains('/' as u8)
}

/// The text that stands for `bytes` where names have to be UTF-8, as made by
/// `bstr::ByteSlice::to_str_lossy` from bytes that aren't: that depends on nothing but the bytes.
pub uninterp spec fn lossy_text_of(bytes: Seq<u8>) -> Seq<char>;

/// The name that `bytes` become on Windows, where `lossy` stands for them if they are not UTF-8.
pub open spec fn as_text(bytes: Seq<u8>, lossy: Seq<char>) -> Seq<u8> {
    if valid_utf8(bytes) {
        bytes
    } else {
        encode_utf8(lossy)
    }
}

/// Whether `path` is the path of the file `name` in the directory `root` on Windows, where a name with
/// a drive replaces the directory. One that is taken verbatim may be rewritten unless it is normal, so
/// that only the name at the end is certain.
pub open spec fn is_windows_join(root: Seq<u8>, name: Seq<u8>, path: Seq<u8>) -> bool {
    if has_drive(name) {
        path == name
    } else if is_verbatim(root) && !is_normal(root) {
        ends_with_file(path, name)
    } else {
        path == joined(root, name, true)
    }
}

/// Whether `path` is the path of the file `name` in the directory `root` on one platform or another.
pub open spec fn is_join(root: Seq<u8>, name: Seq<u8>, path: Seq<u8>) -> bool {
    ||| path == joined(root, name, false)
    ||| is_windows_join(
        as_text(root, lossy_text_of(root)),
        as_text(name, lossy_text_of(name)),
        path,
    )
}

/// The path of the file `name` in the directory `root`.
///
/// Calls `std::path::Path::join`, which puts the two together, with the separator of the platform in
/// between where one is needed. It isn't said which platform this is. On Windows, names have to be
/// text, and `bstr::ByteSlice::to_path_lossy` makes them so beforehand, with `to_str_lossy`.
#[verifier::external_body]
fn join(root: &[u8], name: &[u8]) -> (path: Vec<u8>)
    requires
        is_name(name@),
    ensures
        path@ == joined(root@, name@, false) || is_windows_join(
            as_text(root@, lossy_text_of(root@)),
            as_text(name@, lossy_text_of(name@)),
            path@,
        ),
{
    let path = root.to_path_lossy().join(name.to_path_lossy());
    gix_path::into_bstr(path).into_owned().into()
}

/// Whether `path` is absolute on one platform or another: it starts with the root, or with a drive and
/// the root, or with two separators to name a share or a device.
pub open spec fn may_be_absolute(path: Seq<u8>) -> bool {
    ||| path.len() > 0 && path[0] == '/' as u8
    ||| has_drive(path) && path.len() > 2 && bytes::is_separator(path[2])
    ||| has_double_separator(path)
}

/// Whether `path` is absolute on any platform: it starts with a slash, and with a share that something
/// follows.
pub open spec fn is_surely_absolute(path: Seq<u8>) -> bool {
    &&& path.len() > 0 && path[0] == '/' as u8
    &&& exists|server: int, share: int| #[trigger] starts_with_share(path, server, share)
}

/// Whether `path` does not depend on the current directory.
///
/// Calls `std::path::Path::is_absolute`. What is absolute is up to the platform: on Unix it is a path
/// that starts with the root, which is a slash, and on Windows one that has a prefix and then the
/// root. So it isn't said which of those that are absolute on just one of them are so on this one.
#[verifier::external_body]
fn is_absolute(path: &[u8]) -> (absolute: bool)
    ensures
        absolute ==> may_be_absolute(path@),
        is_surely_absolute(path@) ==> absolute,
{
    path.to_path_lossy().is_absolute()
}

/// Whether `path` ends with `.exe` on Windows or elsewhere, with something before it in the name that
/// it is in.
pub open spec fn ends_with_exe(path: Seq<u8>, windows: bool) -> bool {
    let end = end_of(path, windows);
    &&& end.len() > 4
    &&& ends_with(end, dot_exe())
    &&& !separates(end[end.len() - 5], windows, is_verbatim(path))
}

/// Whether `path` is that of an executable, so that it has the extension `exe` on any platform.
pub open spec fn is_exe_path(path: Seq<u8>) -> bool {
    &&& ends_with_exe(path, false)
    &&& ends_with_exe(path, true)
    &&& starts_extension(path, end_of(path, false).len() - 4)
}

/// Whether `path` surely has no extension `exe`, on any platform.
pub open spec fn is_no_exe_path(path: Seq<u8>) -> bool {
    !ends_with_exe(path, false) && !ends_with_exe(path, true)
}

/// A path has the extension `exe` after its last dot just if it ends with `.exe`.
proof fn lemma_exe_extension(path: Seq<u8>, dot: int)
    requires
        is_last_dot(path, dot),
    ensures
        path.skip(dot + 1) == seq!['e' as u8, 'x' as u8, 'e' as u8] <==> ends_with(path, dot_exe()),
{
    let exe = seq!['e' as u8, 'x' as u8, 'e' as u8];
    if path.skip(dot + 1) == exe {
        assert(path.skip(dot + 1).len() == 3);
        assert forall|i: int| 0 <= i < 4 implies path.skip(dot)[i] == dot_exe()[i] by {
            if i > 0 {
                assert(path.skip(dot + 1)[i - 1] == path.skip(dot)[i]);
            }
        }
        assert(path.skip(path.len() - 4) =~= dot_exe());
    }
    if ends_with(path, dot_exe()) {
        let tail = path.skip(path.len() - 4);
        assert(tail[0] == path[path.len() - 4] && tail[1] == path[path.len() - 3]);
        assert(tail[2] == path[path.len() - 2] && tail[3] == path[path.len() - 1]);
        assert(path.skip(dot + 1) =~= exe);
    }
}

/// The last dot of what ends with `.exe` is the one of that extension.
pub(crate) proof fn lemma_exe_dot(path: Seq<u8>)
    requires
        ends_with(path, dot_exe()),
    ensures
        forall|dot: int| #[trigger] is_last_dot(path, dot) <==> dot == path.len() - 4,
{
    let tail = path.skip(path.len() - 4);
    assert(tail[0] == path[path.len() - 4]);
    assert(tail[1] == path[path.len() - 3]);
    assert(tail[2] == path[path.len() - 2]);
    assert(tail[3] == path[path.len() - 1]);
    assert(is_last_dot(path, path.len() - 4));
}

/// What follows the last dot of a path is `exe` just if the path ends with `.exe`.
proof fn lemma_follows_last_dot(path: Seq<u8>, windows: bool, extension: Seq<u8>)
    requires
        follows_last_dot(path, windows, extension),
    ensures
        extension == seq!['e' as u8, 'x' as u8, 'e' as u8] <==> ends_with_exe(path, windows),
{
    let end = end_of(path, windows);
    let exe = seq!['e' as u8, 'x' as u8, 'e' as u8];
    let dot = choose|dot: int|
        {
            &&& #[trigger] is_last_dot(end, dot)
            &&& dot > 0
            &&& !separates(end[dot - 1], windows, is_verbatim(path))
            &&& is_text_of(end.skip(dot + 1), extension)
        };
    lemma_exe_extension(end, dot);
    assert(valid_utf8(exe)) by {
        reveal_with_fuel(valid_utf8, 4);
        assert(pop_first_scalar(exe) =~= seq!['x' as u8, 'e' as u8]);
        assert(pop_first_scalar(seq!['x' as u8, 'e' as u8]) =~= seq!['e' as u8]);
        assert(pop_first_scalar(seq!['e' as u8]) =~= seq![]);
    }
    if ends_with(end, dot_exe()) {
        lemma_exe_dot(end);
    }
}

/// Whether `executable` has the extension `exe`.
fn is_exe(executable: &[u8]) -> (exe: bool)
    ensures
        is_exe_path(executable@) ==> exe,
        is_no_exe_path(executable@) ==> !exe,
{
    match extension(executable) {
        Some(extension) => {
            let exe = extension.len() == 3 && extension[0] == 'e' as u8 && extension[1] == 'x' as u8
                && extension[2] == 'e' as u8;
            proof {
                assert(exe <==> extension@ =~= seq!['e' as u8, 'x' as u8, 'e' as u8]);
                if follows_last_dot(executable@, false, extension@) {
                    lemma_follows_last_dot(executable@, false, extension@);
                } else {
                    lemma_follows_last_dot(executable@, true, extension@);
                }
            }
            exe
        },
        None => false,
    }
}

/// The names of the files that `command` may stand for, in order of preference: the executable, whose
/// extension is appended, or else the command as it is. That of an executable stands only for itself.
pub open spec fn file_names(command: Seq<u8>, exe: bool) -> Seq<Seq<u8>> {
    if exe {
        seq![command]
    } else {
        seq![command + dot_exe(), command]
    }
}

/// The directories in `path_value`, which is the value of `PATH`, as separated by `;`.
pub open spec fn roots_of(path_value: Seq<u8>) -> Seq<Seq<u8>>
    decreases path_value.len(),
{
    match bytes::first_of(path_value, ';' as u8) {
        Some(end) => {
            proof {
                bytes::lemma_has_first(path_value, ';' as u8);
            }
            seq![path_value.take(end)] + roots_of(path_value.skip(end + 1))
        },
        None => seq![path_value],
    }
}

/// Every one of the `names` in every one of the `roots`, by root first.
pub open spec fn attempts(roots: Seq<Seq<u8>>, names: Seq<Seq<u8>>) -> Seq<(Seq<u8>, Seq<u8>)>
    decreases roots.len(),
{
    if roots.len() == 0 {
        seq![]
    } else {
        attempts(roots.drop_last(), names) + names.map_values(
            |name: Seq<u8>| (roots.last(), name),
        )
    }
}

/// Whether each of the `paths` is that of the attempt at its place.
pub open spec fn are_joins(attempts: Seq<(Seq<u8>, Seq<u8>)>, paths: Seq<Seq<u8>>) -> bool {
    &&& paths.len() == attempts.len()
    &&& forall|i: int|
        0 <= i < paths.len() ==> is_join(attempts[i].0, attempts[i].1, #[trigger] paths[i])
}

/// Whether `command` is looked up at all. It has to be the name of a file, which has no drive on
/// Windows.
pub open spec fn is_looked_up(command: Seq<u8>, windows: bool) -> bool {
    is_name(command) && !(windows && has_drive(command))
}

/// Whether `candidates` are the paths to look at for `command` in `roots`, in this order, if it is
/// the name of an executable or not.
pub open spec fn are_paths_of(
    command: Seq<u8>,
    exe: bool,
    roots: Seq<Seq<u8>>,
    candidates: Seq<Seq<u8>>,
) -> bool {
    are_joins(attempts(roots, file_names(command, exe)), candidates)
}

/// Whether `candidates` are the paths to look at for `command`, in this order.
pub open spec fn are_candidates(
    command: Seq<u8>,
    path_value: Seq<u8>,
    windows: bool,
    candidates: Seq<Seq<u8>>,
) -> bool {
    if is_looked_up(command, windows) {
        exists|exe: bool|
            {
                &&& is_exe_path(command) ==> exe
                &&& is_no_exe_path(command) ==> !exe
                &&& #[trigger] are_paths_of(command, exe, roots_of(path_value), candidates)
            }
    } else {
        candidates.len() == 0
    }
}

/// The lookup of a command, which goes on for as long as there is a path to [probe](Lookup::Probe).
#[derive(Debug, PartialEq, Eq)]
pub enum Lookup {
    /// The next thing to know is whether `candidate` is a file. Answer with [`next()`](Lookup::next).
    Probe {
        /// The path to look at.
        candidate: Vec<u8>,
        /// The paths to look at if it isn't.
        rest: Vec<Vec<u8>>,
    },
    /// The path of the file that the command stands for.
    Found(Vec<u8>),
    /// There is no such file.
    NotFound,
}

/// What [`Lookup`] holds.
pub enum LookupView {
    Probe { candidate: Seq<u8>, rest: Seq<Seq<u8>> },
    Found(Seq<u8>),
    NotFound,
}

impl View for Lookup {
    type V = LookupView;

    open spec fn view(&self) -> LookupView {
        match self {
            Lookup::Probe { candidate, rest } => LookupView::Probe {
                candidate: candidate@,
                rest: bytes::views(rest@),
            },
            Lookup::Found(path) => LookupView::Found(path@),
            Lookup::NotFound => LookupView::NotFound,
        }
    }
}

/// The lookup that goes through `candidates`.
pub open spec fn lookup_in(candidates: Seq<Seq<u8>>) -> LookupView {
    if candidates.len() == 0 {
        LookupView::NotFound
    } else {
        LookupView::Probe { candidate: candidates[0], rest: candidates.skip(1) }
    }
}

/// The paths that `lookup` is still to look at.
pub open spec fn pending(lookup: LookupView) -> Seq<Seq<u8>> {
    match lookup {
        LookupView::Probe { candidate, rest } => seq![candidate] + rest,
        LookupView::Found(_) => seq![],
        LookupView::NotFound => seq![],
    }
}

/// The lookup once it is known whether its candidate is a file.
pub open spec fn after_probe(lookup: LookupView, is_file: bool) -> LookupView {
    match lookup {
        LookupView::Probe { candidate, rest } => if is_file {
            LookupView::Found(candidate)
        } else {
            lookup_in(rest)
        },
        _ => lookup,
    }
}

/// The path of the program that runs for `command` once its `lookup` is done.
pub open spec fn program_of(lookup: LookupView, command: Seq<u8>) -> Seq<u8> {
    match lookup {
        LookupView::Found(path) => path,
        _ => command,
    }
}

/// Start looking through `candidates`.
fn start(candidates: Vec<Vec<u8>>) -> (lookup: Lookup)
    ensures
        lookup@ == lookup_in(bytes::views(candidates@)),
{
    let mut rest = candidates;
    if rest.len() == 0 {
        Lookup::NotFound
    } else {
        let candidate = rest.remove(0);
        assert(bytes::views(rest@) =~= bytes::views(candidates@).skip(1));
        Lookup::Probe { candidate, rest }
    }
}

impl Lookup {
    /// Go on with the lookup, given whether the candidate is a file.
    pub fn next(self, is_file: bool) -> (lookup: Lookup)
        ensures
            lookup@ == after_probe(self@, is_file),
    {
        match self {
            Lookup::Probe { candidate, rest } => if is_file {
                Lookup::Found(candidate)
            } else {
                start(rest)
            },
            Lookup::Found(path) => Lookup::Found(path),
            Lookup::NotFound => Lookup::NotFound,
        }
    }

    /// The path of the program that runs for `command`: the file that was found, or else the command
    /// itself.
    pub fn into_program(self, command: &[u8]) -> (program: Vec<u8>)
        ensures
            program@ == program_of(self@, command@),
    {
        match self {
            Lookup::Found(path) => path,
            _ => slice_to_vec(command),
        }
    }
}

/// Split the value of `PATH` into directories.
fn split_roots(path_value: &[u8]) -> (roots: Vec<Vec<u8>>)
    ensures
        bytes::views(roots@) == roots_of(path_value@),
{
    let mut roots: Vec<Vec<u8>> = Vec::new();
    let mut rest = path_value;
    assert(bytes::views(roots@) + roots_of(rest@) =~= roots_of(path_value@));
    loop
        invariant
            bytes::views(roots@) + roots_of(rest@) == roots_of(path_value@),
        decreases rest@.len(),
    {
        let ghost before = bytes::views(roots@);
        match bytes::position(rest, ';' as u8) {
            Some(end) => {
                proof {
                    assert(rest@.subrange(0, end as int) =~= rest@.take(end as int));
                    assert(rest@.subrange(end + 1, rest@.len() as int) =~= rest@.skip(end + 1));
                }
                let len = rest.len();
                roots.push(slice_to_vec(slice_subrange(rest, 0, end)));
                rest = slice_subrange(rest, end + 1, len);
                assert(bytes::views(roots@) + roots_of(rest@) =~= roots_of(path_value@));
            },
            None => {
                roots.push(slice_to_vec(rest));
                assert(bytes::views(roots@) =~= before + seq![rest@]);
                return roots;
            },
        }
    }
}

/// A name with `.exe` appended is a name as well.
proof fn lemma_exe_name(command: Seq<u8>)
    requires
        is_name(command),
    ensures
        is_name(command + dot_exe()),
{
    let exe = command + dot_exe();
    assert forall|i: int| 0 <= i < exe.len() implies !bytes::is_separator(#[trigger] exe[i]) by {
        if i < command.len() {
            assert(exe[i] == command[i]);
        } else {
            assert(exe[i] == dot_exe()[i - command.len()]);
        }
    }
}

/// The names of the files that `command` may stand for.
fn names_for(command: &[u8], exe: bool) -> (names: Vec<Vec<u8>>)
    requires
        is_name(command@),
    ensures
        bytes::views(names@) == file_names(command@, exe),
        forall|i: int| 0 <= i < names@.len() ==> is_name(#[trigger] names@[i]@),
{
    let mut names: Vec<Vec<u8>> = Vec::new();
    if !exe {
        proof {
            lemma_exe_name(command@);
        }
        let mut name = slice_to_vec(command);
        name.push('.' as u8);
        name.push('e' as u8);
        name.push('x' as u8);
        name.push('e' as u8);
        assert(name@ =~= command@ + dot_exe());
        names.push(name);
    }
    names.push(slice_to_vec(command));
    assert(bytes::views(names@) =~= file_names(command@, exe));
    names
}

/// The paths of all `names` in all `roots`, by root first.
fn join_all(roots: &Vec<Vec<u8>>, names: &Vec<Vec<u8>>) -> (paths: Vec<Vec<u8>>)
    requires
        forall|i: int| 0 <= i < names@.len() ==> is_name(#[trigger] names@[i]@),
    ensures
        are_joins(
            attempts(bytes::views(roots@), bytes::views(names@)),
            bytes::views(paths@),
        ),
{
    let ghost all_roots = bytes::views(roots@);
    let ghost all_names = bytes::views(names@);
    let mut paths: Vec<Vec<u8>> = Vec::new();
    let mut i: usize = 0;
    while i < roots.len()
        invariant
            all_roots == bytes::views(roots@),
            all_names == bytes::views(names@),
            forall|i: int| 0 <= i < names@.len() ==> is_name(#[trigger] names@[i]@),
            i <= roots@.len(),
            are_joins(attempts(all_roots.take(i as int), all_names), bytes::views(paths@)),
        decreases roots@.len() - i,
    {
        let ghost done = attempts(all_roots.take(i as int), all_names);
        let ghost next = all_names.map_values(|name: Seq<u8>| (all_roots[i as int], name));
        let mut j: usize = 0;
        assert(done + next.take(0) =~= done);
        while j < names.len()
            invariant
                all_roots == bytes::views(roots@),
                all_names == bytes::views(names@),
                next == all_names.map_values(|name: Seq<u8>| (all_roots[i as int], name)),
                i < roots@.len(),
                forall|i: int| 0 <= i < names@.len() ==> is_name(#[trigger] names@[i]@),
                j <= names@.len(),
                are_joins(done + next.take(j as int), bytes::views(paths@)),
            decreases names@.len() - j,
        {
            let ghost before = bytes::views(paths@);
            let path = join(roots[i].as_slice(), names[j].as_slice());
            paths.push(path);
            proof {
                let list = done + next.take(j + 1);
                assert(bytes::views(paths@) =~= before.push(path@));
                assert(list =~= (done + next.take(j as int)).push(next[j as int]));
                assert(next[j as int] == (roots@[i as int]@, names@[j as int]@));
            }
            j = j + 1;
        }
        proof {
            assert(next.take(j as int) =~= next);
            let taken = all_roots.take(i + 1);
            assert(taken.drop_last() =~= all_roots.take(i as int));
            assert(taken.last() == all_roots[i as int]);
            assert(attempts(taken, all_names) =~= done + next);
        }
        i = i + 1;
    }
    assert(all_roots.take(i as int) =~= all_roots);
    paths
}

/// Whether `command` is to be looked up.
fn wants_lookup(command: &[u8], windows: bool) -> (wanted: bool)
    ensures
        wanted == is_looked_up(command@, windows),
{
    if command.len() == 0 || bytes::separator_position(command).is_some() {
        return false;
    }
    if command[0] == '.' as u8 && (command.len() == 1 || (command.len() == 2 && command[1]
        == '.' as u8)) {
        assert(command@ =~= seq!['.' as u8] || command@ =~= seq!['.' as u8, '.' as u8]);
        return false;
    }
    let drive = command.len() >= 2 && command[1] == ':' as u8 && (('a' as u8 <= command[0]
        && command[0] <= 'z' as u8) || ('A' as u8 <= command[0] && command[0] <= 'Z' as u8));
    assert(drive == has_drive(command@));
    !(windows && drive)
}

/// Try to find `command` in the `path_value` (the value of `PATH`) as separated by `;`.
/// Has special handling for `.exe` extensions, as these will be appended automatically if needed.
/// Note that just like Git, no lookup is performed if a slash or backslash is in `command`. Neither
/// is it if that is no name of a file, or if it comes with a drive on `windows`.
///
/// The caller is asked for each path in turn whether it is a file.
pub fn win_path_lookup(command: &[u8], path_value: &[u8], windows: bool) -> (lookup: Lookup)
    ensures
        lookup@ == lookup_in(pending(lookup@)),
        are_candidates(command@, path_value@, windows, pending(lookup@)),
{
    if !wants_lookup(command, windows) {
        return Lookup::NotFound;
    }
    let exe = is_exe(command);
    let roots = split_roots(path_value);
    let names = names_for(command, exe);
    let candidates = join_all(&roots, &names);
    let lookup = start(candidates);
    assert(pending(lookup@) =~= bytes::views(candidates@));
    assert(are_paths_of(command@, exe, roots_of(path_value@), pending(lookup@)));
    lookup
}

/// What the start of a file tells about the interpreter to run it with.
pub open spec fn interpreter_in(head: Option<Seq<u8>>) -> Option<DataView> {
    match head {
        Some(head) => shebang::data_of(
            if head.len() > HEAD_LEN {
                head.take(HEAD_LEN as int)
            } else {
                head
            },
        ),
        None => None,
    }
}

/// `path` as Windows reads it, written so that it is read like that elsewhere, too: with slashes, as
/// these separate names just like backslashes do. In a path that is taken verbatim only a backslash
/// does, but not at the end, where it is dropped.
pub open spec fn windows_form(path: Seq<u8>) -> Seq<u8> {
    if is_verbatim(path) {
        without_tail(path, true, true)
    } else {
        path.map_values(
            |byte: u8|
                if byte == '\\' as u8 {
                    '/' as u8
                } else {
                    byte
                },
        )
    }
}

/// Whether `found` is the interpreter of the file at `executable` with the given `head`: on Windows
/// an executable has none, whatever it starts with.
pub open spec fn is_interpreter_of(
    executable: Seq<u8>,
    head: Option<Seq<u8>>,
    windows: bool,
    found: Option<DataView>,
) -> bool {
    &&& found is None || found == interpreter_in(head)
    &&& windows && is_exe_path(windows_form(executable)) ==> found is None
    &&& !windows || is_no_exe_path(windows_form(executable)) ==> found == interpreter_in(head)
}

/// The bytes of an optional shebang.
pub open spec fn optional_data(data: Option<Data>) -> Option<DataView> {
    match data {
        Some(data) => Some(data@),
        None => None,
    }
}

/// Parse the shebang from the `head` of a file, which is how it starts or `None` if it can't be read,
/// and return the shebang data when available. No more than the first [`HEAD_LEN`] bytes count.
pub fn parse_head(head: Option<Vec<u8>>) -> (data: Option<Data>)
    ensures
        optional_data(data) == interpreter_in(bytes::optional_view(head)),
{
    match head {
        Some(head) => if head.len() > HEAD_LEN {
            let start = slice_subrange(head.as_slice(), 0, HEAD_LEN);
            assert(start@ =~= head@.take(HEAD_LEN as int));
            shebang::parse(start)
        } else {
            shebang::parse(head.as_slice())
        },
        None => None,
    }
}

/// Write `path` so that it is read everywhere like Windows does.
fn to_windows_form(path: &[u8]) -> (form: Vec<u8>)
    ensures
        form@ == windows_form(path@),
{
    let backslash = '\\' as u8;
    let verbatim = path.len() >= 4 && path[0] == backslash && path[1] == backslash && path[2]
        == '?' as u8 && path[3] == backslash;
    let mut form = slice_to_vec(path);
    if verbatim {
        while form.len() > 0 && form[form.len() - 1] == backslash
            invariant
                backslash == '\\' as u8,
                without_tail(form@, true, true) == without_tail(path@, true, true),
            decreases form@.len(),
        {
            let ghost before = form@;
            form.pop();
            assert(form@ =~= before.drop_last());
        }
        return form;
    }
    let mut i: usize = 0;
    while i < form.len()
        invariant
            backslash == '\\' as u8,
            i <= form@.len(),
            form@.len() == path@.len(),
            !is_verbatim(path@),
            forall|j: int| 0 <= j < i ==> #[trigger] form@[j] == windows_form(path@)[j],
            forall|j: int| i <= j < form@.len() ==> #[trigger] form@[j] == path@[j],
        decreases form@.len() - i,
    {
        if form[i] == backslash {
            form.set(i, '/' as u8);
        }
        i = i + 1;
    }
    assert(form@ =~= windows_form(path@));
    form
}

/// Parse the shebang (`#!<path>`) from the first line of `executable`, and return the shebang
/// data when available. `head` is how the file starts, or `None` if it can't be read.
pub fn extract_interpreter(executable: &[u8], head: Option<Vec<u8>>, windows: bool) -> (data: Option<
    Data,
>)
    ensures
        is_interpreter_of(executable@, bytes::optional_view(head), windows, optional_data(data)),
{
    if windows && is_exe(to_windows_form(executable).as_slice()) {
        return None;
    }
    parse_head(head)
}

/// A program that has to be run by an interpreter.
#[derive(Debug, PartialEq, Eq)]
pub struct Script {
    /// What the first line of the program says.
    pub shebang: Data,
    /// Whether the path to the program is absolute, and doesn't depend on the current directory.
    pub absolute: bool,
}

/// What [`Script`] holds.
#[verifier::ext_equal]
pub struct ScriptView {
    pub shebang: DataView,
    pub absolute: bool,
}

impl View for Script {
    type V = ScriptView;

    open spec fn view(&self) -> ScriptView {
        ScriptView { shebang: self.shebang@, absolute: self.absolute }
    }
}

impl Script {
    /// See whether the file at `program` has to be run by an interpreter. `head` is how the file
    /// starts, or `None` if it can't be read.
    ///
    /// Whether the path is absolute is up to the platform, but one that starts with a name never is,
    /// and one that starts with a share and slashes always is.
    pub fn find(program: &[u8], head: Option<Vec<u8>>, windows: bool) -> (script: Option<Script>)
        ensures
            match script {
                Some(script) => {
                    &&& is_interpreter_of(
                        program@,
                        bytes::optional_view(head),
                        windows,
                        Some(script@.shebang),
                    )
                    &&& script@.absolute ==> may_be_absolute(program@)
                    &&& is_surely_absolute(program@) ==> script@.absolute
                },
                None => is_interpreter_of(program@, bytes::optional_view(head), windows, None),
            },
    {
        match extract_interpreter(program, head, windows) {
            Some(shebang) => Some(Script { shebang, absolute: is_absolute(program) }),
            None => None,
        }
    }
}

} // verus!
