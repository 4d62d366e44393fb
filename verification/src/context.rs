//! What a process spawned for `git` is told about the repository, by means of its environment.

use crate::bytes;
use vstd::prelude::*;

verus! {

/// Additional information that is relevant to spawned processes, which typically receive
/// a wealth of contextual information when spawned from `git`.
#[derive(Debug, Clone)]
pub struct Context {
    /// The `.git` directory that contains the repository.
    ///
    /// If set, it will be used to set the `GIT_DIR` environment variable.
    pub git_dir: Option<Vec<u8>>,
    /// Set the `GIT_WORK_TREE` environment variable with the given path.
    pub worktree_dir: Option<Vec<u8>>,
    /// If `true`, set `GIT_NO_REPLACE_OBJECTS` to `1`, which turns off object replacements, or `0`
    /// otherwise. If `None`, the variable won't be set.
    pub no_replace_objects: Option<bool>,
    /// Set the `GIT_NAMESPACE` variable with the given value, effectively namespacing all
    /// operations on references.
    pub ref_namespace: Option<Vec<u8>>,
    /// If `true`, set `GIT_LITERAL_PATHSPECS` to `1`, which makes globs literal and prefixes as
    /// well, or `0` otherwise. If `None`, the variable won't be set.
    pub literal_pathspecs: Option<bool>,
    /// If `true`, set `GIT_GLOB_PATHSPECS` to `1`, which lets wildcards not match the `/` character,
    /// and equals the `:(glob)` prefix.
    /// If `false`, set `GIT_NOGLOB_PATHSPECS` to `1` which lets globs match only themselves.
    /// If `None`, the variable won't be set.
    pub glob_pathspecs: Option<bool>,
    /// If `true`, set `GIT_ICASE_PATHSPECS` to `1`, to let patterns match case-insensitively, or `0`
    /// otherwise. If `None`, the variable won't be set.
    pub icase_pathspecs: Option<bool>,
    /// If `true`, inherit `stderr` just like it's the default when spawning processes.
    /// If `false`, suppress all stderr output.
    /// If not `None`, this will override any value set with `Prepare::stderr()`.
    pub stderr: Option<bool>,
}

/// What [`Context`] holds.
#[verifier::ext_equal]
pub struct ContextView {
    pub git_dir: Option<Seq<u8>>,
    pub worktree_dir: Option<Seq<u8>>,
    pub no_replace_objects: Option<bool>,
    pub ref_namespace: Option<Seq<u8>>,
    pub literal_pathspecs: Option<bool>,
    pub glob_pathspecs: Option<bool>,
    pub icase_pathspecs: Option<bool>,
    pub stderr: Option<bool>,
}

impl View for Context {
    type V = ContextView;

    open spec fn view(&self) -> ContextView {
        ContextView {
            git_dir: bytes::optional_view(self.git_dir),
            worktree_dir: bytes::optional_view(self.worktree_dir),
            no_replace_objects: self.no_replace_objects,
            ref_namespace: bytes::optional_view(self.ref_namespace),
            literal_pathspecs: self.literal_pathspecs,
            glob_pathspecs: self.glob_pathspecs,
            icase_pathspecs: self.icase_pathspecs,
            stderr: self.stderr,
        }
    }
}

/// Environment variables in the order in which they are set: of two with the same name, the latter
/// one counts.
pub type Variables = Vec<(Vec<u8>, Vec<u8>)>;

/// The names and values that `list` holds.
pub open spec fn variables(list: Seq<(Vec<u8>, Vec<u8>)>) -> Seq<(Seq<u8>, Seq<u8>)> {
    list.map_values(|variable: (Vec<u8>, Vec<u8>)| (variable.0@, variable.1@))
}

/// The value that `name` ends up with once all of `list` is set. Names are the same if their bytes are,
/// while Windows ignores their case.
pub open spec fn value_of(list: Seq<(Seq<u8>, Seq<u8>)>, name: Seq<u8>) -> Option<Seq<u8>>
    decreases list.len(),
{
    if list.len() == 0 {
        None
    } else if list.last().0 == name {
        Some(list.last().1)
    } else {
        value_of(list.drop_last(), name)
    }
}

/// The variable `name`, if there is a `value` to set it to.
pub open spec fn setting(name: Seq<u8>, value: Option<Seq<u8>>) -> Seq<(Seq<u8>, Seq<u8>)> {
    match value {
        Some(value) => seq![(name, value)],
        None => seq![],
    }
}

/// How an optional flag is written: `1` for `true` and `0` for `false`.
pub open spec fn flag_value(flag: Option<bool>) -> Option<Seq<u8>> {
    match flag {
        Some(true) => Some(seq!['1' as u8]),
        Some(false) => Some(seq!['0' as u8]),
        None => None,
    }
}

/// `1`, if the `flag` is there and is `wanted`.
pub open spec fn one_if(flag: Option<bool>, wanted: bool) -> Option<Seq<u8>> {
    if flag == Some(wanted) {
        Some(seq!['1' as u8])
    } else {
        None
    }
}

/// All variables that `context` sets.
pub open spec fn context_variables(context: ContextView) -> Seq<(Seq<u8>, Seq<u8>)> {
    setting(bytes::text("GIT_DIR"), context.git_dir)
        + setting(bytes::text("GIT_WORK_TREE"), context.worktree_dir)
        + setting(bytes::text("GIT_NO_REPLACE_OBJECTS"), flag_value(context.no_replace_objects))
        + setting(bytes::text("GIT_NAMESPACE"), context.ref_namespace)
        + setting(bytes::text("GIT_LITERAL_PATHSPECS"), flag_value(context.literal_pathspecs))
        + setting(bytes::text("GIT_GLOB_PATHSPECS"), one_if(context.glob_pathspecs, true))
        + setting(bytes::text("GIT_NOGLOB_PATHSPECS"), one_if(context.glob_pathspecs, false))
        + setting(bytes::text("GIT_ICASE_PATHSPECS"), flag_value(context.icase_pathspecs))
}

/// What a context sets a variable to, if it is one of its own and there is anything to set.
pub open spec fn context_value(context: ContextView, name: Seq<u8>) -> Option<Seq<u8>> {
    if name == bytes::text("GIT_DIR") {
        context.git_dir
    } else if name == bytes::text("GIT_WORK_TREE") {
        context.worktree_dir
    } else if name == bytes::text("GIT_NO_REPLACE_OBJECTS") {
        flag_value(context.no_replace_objects)
    } else if name == bytes::text("GIT_NAMESPACE") {
        context.ref_namespace
    } else if name == bytes::text("GIT_LITERAL_PATHSPECS") {
        flag_value(context.literal_pathspecs)
    } else if name == bytes::text("GIT_GLOB_PATHSPECS") {
        one_if(context.glob_pathspecs, true)
    } else if name == bytes::text("GIT_NOGLOB_PATHSPECS") {
        one_if(context.glob_pathspecs, false)
    } else if name == bytes::text("GIT_ICASE_PATHSPECS") {
        flag_value(context.icase_pathspecs)
    } else {
        None
    }
}

/// Set `name` to `value`, if there is one.
fn set(list: &mut Variables, name: &str, value: Option<Vec<u8>>)
    ensures
        variables(final(list)@) == variables(old(list)@) + setting(
            bytes::text(name),
            bytes::optional_view(value),
        ),
{
    if let Some(value) = value {
        list.push((bytes::text_bytes(name), value));
    }
    assert(variables(list@) =~= variables(old(list)@) + setting(
        bytes::text(name),
        bytes::optional_view(value),
    ));
}

/// How an optional flag is written.
fn flag(value: Option<bool>) -> (written: Option<Vec<u8>>)
    ensures
        bytes::optional_view(written) == flag_value(value),
{
    match value {
        Some(true) => Some(vec!['1' as u8]),
        Some(false) => Some(vec!['0' as u8]),
        None => None,
    }
}

impl Default for Context {
    /// A context that sets nothing.
    fn default() -> (context: Self)
        ensures
            context@ == (ContextView {
                git_dir: None,
                worktree_dir: None,
                no_replace_objects: None,
                ref_namespace: None,
                literal_pathspecs: None,
                glob_pathspecs: None,
                icase_pathspecs: None,
                stderr: None,
            }),
    {
        Context {
            git_dir: None,
            worktree_dir: None,
            no_replace_objects: None,
            ref_namespace: None,
            literal_pathspecs: None,
            glob_pathspecs: None,
            icase_pathspecs: None,
            stderr: None,
        }
    }
}

impl Context {
    /// Add the variables that tell a process about this context to `list`.
    pub(crate) fn set_variables(self, list: &mut Variables)
        ensures
            variables(final(list)@) == variables(old(list)@) + context_variables(self@),
    {
        let ghost before = variables(list@);
        let ghost dir = setting(bytes::text("GIT_DIR"), self@.git_dir);
        let ghost tree = setting(bytes::text("GIT_WORK_TREE"), self@.worktree_dir);
        let ghost replace = setting(
            bytes::text("GIT_NO_REPLACE_OBJECTS"),
            flag_value(self@.no_replace_objects),
        );
        let ghost namespace = setting(bytes::text("GIT_NAMESPACE"), self@.ref_namespace);
        let ghost literal = setting(
            bytes::text("GIT_LITERAL_PATHSPECS"),
            flag_value(self@.literal_pathspecs),
        );
        let ghost glob = setting(
            bytes::text("GIT_GLOB_PATHSPECS"),
            one_if(self@.glob_pathspecs, true),
        );
        let ghost noglob = setting(
            bytes::text("GIT_NOGLOB_PATHSPECS"),
            one_if(self@.glob_pathspecs, false),
        );
        set(list, "GIT_DIR", self.git_dir);
        set(list, "GIT_WORK_TREE", self.worktree_dir);
        assert(variables(list@) =~= before + (dir + tree));
        set(list, "GIT_NO_REPLACE_OBJECTS", flag(self.no_replace_objects));
        assert(variables(list@) =~= before + (dir + tree + replace));
        set(list, "GIT_NAMESPACE", self.ref_namespace);
        assert(variables(list@) =~= before + (dir + tree + replace + namespace));
        set(list, "GIT_LITERAL_PATHSPECS", flag(self.literal_pathspecs));
        assert(variables(list@) =~= before + (dir + tree + replace + namespace + literal));
        if let Some(value) = self.glob_pathspecs {
            let one = vec!['1' as u8];
            assert(one@ =~= seq!['1' as u8]);
            set(
                list,
                if value {
                    "GIT_GLOB_PATHSPECS"
                } else {
                    "GIT_NOGLOB_PATHSPECS"
                },
                Some(one),
            );
        }
        assert(variables(list@) =~= before + (dir + tree + replace + namespace + literal + glob
            + noglob));
        set(list, "GIT_ICASE_PATHSPECS", flag(self.icase_pathspecs));
        assert(variables(list@) =~= before + context_variables(self@));
    }
}

/// What is set last counts.
pub(crate) proof fn lemma_value_of_concat(
    first: Seq<(Seq<u8>, Seq<u8>)>,
    second: Seq<(Seq<u8>, Seq<u8>)>,
    name: Seq<u8>,
)
    ensures
        value_of(first + second, name) == match value_of(second, name) {
            Some(value) => Some(value),
            None => value_of(first, name),
        },
    decreases second.len(),
{
    if second.len() == 0 {
        assert(first + second =~= first);
    } else {
        assert((first + second).last() == second.last());
        assert((first + second).drop_last() =~= first + second.drop_last());
        lemma_value_of_concat(first, second.drop_last(), name);
    }
}

/// A single setting affects its own variable only.
proof fn lemma_value_of_setting(of: Seq<u8>, value: Option<Seq<u8>>, name: Seq<u8>)
    ensures
        value_of(setting(of, value), name) == if of == name {
            value
        } else {
            None
        },
{
    reveal_with_fuel(value_of, 2);
}

/// The text `s` is ASCII, so that its bytes are its characters.
proof fn lemma_ascii(s: &str)
    requires
        s.is_ascii(),
    ensures
        bytes::text(s).len() == s@.len(),
        forall|i: int| 0 <= i < s@.len() ==> #[trigger] bytes::text(s)[i] == s@[i] as u8,
{
    vstd::string::is_ascii_spec_bytes(s);
}

/// All variables have names of their own.
pub(crate) proof fn lemma_names_differ()
    ensures
        ({
            let dir = bytes::text("GIT_DIR");
            let tree = bytes::text("GIT_WORK_TREE");
            let replace = bytes::text("GIT_NO_REPLACE_OBJECTS");
            let namespace = bytes::text("GIT_NAMESPACE");
            let literal = bytes::text("GIT_LITERAL_PATHSPECS");
            let glob = bytes::text("GIT_GLOB_PATHSPECS");
            let noglob = bytes::text("GIT_NOGLOB_PATHSPECS");
            let icase = bytes::text("GIT_ICASE_PATHSPECS");
            &&& dir.len() == 7
            &&& tree.len() == 13
            &&& replace.len() == 22
            &&& namespace.len() == 13
            &&& literal.len() == 21
            &&& glob.len() == 18
            &&& noglob.len() == 20
            &&& icase.len() == 19
            &&& tree[4] != namespace[4]
        }),
{
    reveal_strlit("GIT_DIR");
    reveal_strlit("GIT_WORK_TREE");
    reveal_strlit("GIT_NO_REPLACE_OBJECTS");
    reveal_strlit("GIT_NAMESPACE");
    reveal_strlit("GIT_LITERAL_PATHSPECS");
    reveal_strlit("GIT_GLOB_PATHSPECS");
    reveal_strlit("GIT_NOGLOB_PATHSPECS");
    reveal_strlit("GIT_ICASE_PATHSPECS");
    lemma_ascii("GIT_DIR");
    lemma_ascii("GIT_WORK_TREE");
    lemma_ascii("GIT_NO_REPLACE_OBJECTS");
    lemma_ascii("GIT_NAMESPACE");
    lemma_ascii("GIT_LITERAL_PATHSPECS");
    lemma_ascii("GIT_GLOB_PATHSPECS");
    lemma_ascii("GIT_NOGLOB_PATHSPECS");
    lemma_ascii("GIT_ICASE_PATHSPECS");
}

/// What `context` sets the variable `name` to.
pub(crate) proof fn lemma_context_value(context: ContextView, name: Seq<u8>)
    ensures
        value_of(context_variables(context), name) == context_value(context, name),
{
    lemma_names_differ();
    let dir = setting(bytes::text("GIT_DIR"), context.git_dir);
    let tree = setting(bytes::text("GIT_WORK_TREE"), context.worktree_dir);
    let replace = setting(
        bytes::text("GIT_NO_REPLACE_OBJECTS"),
        flag_value(context.no_replace_objects),
    );
    let namespace = setting(bytes::text("GIT_NAMESPACE"), context.ref_namespace);
    let literal = setting(
        bytes::text("GIT_LITERAL_PATHSPECS"),
        flag_value(context.literal_pathspecs),
    );
    let glob = setting(bytes::text("GIT_GLOB_PATHSPECS"), one_if(context.glob_pathspecs, true));
    let noglob = setting(
        bytes::text("GIT_NOGLOB_PATHSPECS"),
        one_if(context.glob_pathspecs, false),
    );
    let icase = setting(bytes::text("GIT_ICASE_PATHSPECS"), flag_value(context.icase_pathspecs));
    lemma_value_of_setting(bytes::text("GIT_DIR"), context.git_dir, name);
    lemma_value_of_setting(bytes::text("GIT_WORK_TREE"), context.worktree_dir, name);
    lemma_value_of_setting(
        bytes::text("GIT_NO_REPLACE_OBJECTS"),
        flag_value(context.no_replace_objects),
        name,
    );
    lemma_value_of_setting(bytes::text("GIT_NAMESPACE"), context.ref_namespace, name);
    lemma_value_of_setting(
        bytes::text("GIT_LITERAL_PATHSPECS"),
        flag_value(context.literal_pathspecs),
        name,
    );
    lemma_value_of_setting(
        bytes::text("GIT_GLOB_PATHSPECS"),
        one_if(context.glob_pathspecs, true),
        name,
    );
    lemma_value_of_setting(
        bytes::text("GIT_NOGLOB_PATHSPECS"),
        one_if(context.glob_pathspecs, false),
        name,
    );
    lemma_value_of_setting(
        bytes::text("GIT_ICASE_PATHSPECS"),
        flag_value(context.icase_pathspecs),
        name,
    );
    lemma_value_of_concat(dir, tree, name);
    lemma_value_of_concat(dir + tree, replace, name);
    lemma_value_of_concat(dir + tree + replace, namespace, name);
    lemma_value_of_concat(dir + tree + replace + namespace, literal, name);
    lemma_value_of_concat(dir + tree + replace + namespace + literal, glob, name);
    lemma_value_of_concat(dir + tree + replace + namespace + literal + glob, noglob, name);
    lemma_value_of_concat(dir + tree + replace + namespace + literal + glob + noglob, icase, name);
}

} // verus!
