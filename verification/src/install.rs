//! Setting the workflow up in a repository: where the hooks go and what they
//! hold, which aliases and settings are made, and which Git is too old.

use crate::hooks::{
    body_is_well_formed, lemma_markers, lemma_update_is_idempotent, lemma_update_of_updated_lines,
    lines_are_trimmed, managed_region, spec_update_between_lines, update_between_lines,
    update_lines, SHEBANG, UPDATE_MARKER_END, UPDATE_MARKER_START,
};
use crate::lines::{ends_with_cr, no_newline};
use crate::lines::{push_all, push_range};
use crate::select::{parse_event_id, spec_parse_event_id};
use crate::text::{chars_string, spec_trim, str_chars, trim_bounds};
use vstd::prelude::*;

verus! {

/// Where a hook is installed. The path is given by its parts, to be joined by
/// the separator of the platform.
#[derive(Debug, PartialEq, Eq)]
pub enum Hook {
    /// An ordinary hook file, which may hold more than this library's part.
    RegularHook { path: Vec<String> },
    /// A file of its own in a directory of hooks that are all run.
    MultiHook { path: Vec<String> },
}

/// The directory, below the repository's directory, whose presence says that
/// hooks are kept one directory per kind.
pub const MULTI_HOOKS_DIRECTORY: &'static str = "hooks_multi";

/// The name of this library's file in a directory of hooks.
pub const MULTI_HOOK_FILE_NAME: &'static str = "00_local_branchless";

/// The parts of the path of the hook of kind `hook_type`: with hooks kept one
/// directory per kind, a file of its own below the repository's directory;
/// else the file named as the kind in the hooks directory.
pub open spec fn spec_hook_path(
    repo_path: Seq<char>,
    has_multi_hooks: bool,
    hooks_dir: Seq<char>,
    hook_type: Seq<char>,
) -> Seq<Seq<char>> {
    if has_multi_hooks {
        seq![repo_path, MULTI_HOOKS_DIRECTORY@, hook_type + ".d"@, MULTI_HOOK_FILE_NAME@]
    } else {
        seq![hooks_dir, hook_type]
    }
}

/// The parts of `path`, each by its characters.
pub open spec fn path_parts(path: Seq<String>) -> Seq<Seq<char>> {
    path.map_values(|part: String| part@)
}

/// Where the hook of kind `hook_type` is installed. `repo_path` is the
/// repository's directory, `has_multi_hooks` tells whether it holds a
/// directory `hooks_multi`, and `hooks_dir` is the configured hooks directory.
pub fn determine_hook_path(
    repo_path: &str,
    has_multi_hooks: bool,
    hooks_dir: &str,
    hook_type: &str,
) -> (hook: Hook)
    ensures
        has_multi_hooks ==> hook is MultiHook,
        !has_multi_hooks ==> hook is RegularHook,
        path_parts(
            match hook {
                Hook::RegularHook { path } => path@,
                Hook::MultiHook { path } => path@,
            },
        ) == spec_hook_path(repo_path@, has_multi_hooks, hooks_dir@, hook_type@),
{
    let mut path: Vec<String> = Vec::new();
    if has_multi_hooks {
        let mut directory = str_chars(hook_type);
        let suffix = str_chars(".d");
        push_all(&mut directory, &suffix);
        path.push(repo_path.to_owned());
        path.push(MULTI_HOOKS_DIRECTORY.to_owned());
        path.push(chars_string(&directory));
        path.push(MULTI_HOOK_FILE_NAME.to_owned());
        assert(path_parts(path@) =~= spec_hook_path(
            repo_path@,
            has_multi_hooks,
            hooks_dir@,
            hook_type@,
        ));
        Hook::MultiHook { path }
    } else {
        path.push(hooks_dir.to_owned());
        path.push(hook_type.to_owned());
        assert(path_parts(path@) =~= spec_hook_path(
            repo_path@,
            has_multi_hooks,
            hooks_dir@,
            hook_type@,
        ));
        Hook::RegularHook { path }
    }
}

/// What a new hook file holds: the shebang line, and the managed region around
/// the script.
pub open spec fn spec_new_hook_contents(script: Seq<char>) -> Seq<char> {
    SHEBANG@ + seq!['\n'] + managed_region(script)
}

/// What the hook file holds after `script` has been installed. A file of its
/// own holds the shebang line and the script. An ordinary hook file that
/// exists keeps what it has outside the markers; one that does not is made
/// new.
pub open spec fn spec_hook_contents(
    is_multi_hook: bool,
    existing: Option<Seq<char>>,
    script: Seq<char>,
) -> Seq<char> {
    if is_multi_hook {
        SHEBANG@ + seq!['\n'] + script
    } else {
        match existing {
            Some(lines) => spec_update_between_lines(lines, script),
            None => spec_new_hook_contents(script),
        }
    }
}

/// What is to be written to the hook file. `existing` is what the file holds
/// now, if there is one.
pub fn update_hook_contents(hook: &Hook, existing: Option<&str>, script: &str) -> (contents: String)
    ensures
        contents@ == spec_hook_contents(
            hook is MultiHook,
            match existing {
                Some(lines) => Some(lines@),
                None => None,
            },
            script@,
        ),
{
    match hook {
        Hook::MultiHook { .. } => {
            let mut out = str_chars(SHEBANG);
            out.push('\n');
            let body = str_chars(script);
            push_all(&mut out, &body);
            chars_string(&out)
        },
        Hook::RegularHook { .. } => match existing {
            Some(lines) => update_between_lines(lines, script),
            None => {
                let mut out = str_chars(SHEBANG);
                out.push('\n');
                let start = str_chars(UPDATE_MARKER_START);
                push_all(&mut out, &start);
                out.push('\n');
                let body = str_chars(script);
                push_all(&mut out, &body);
                let end = str_chars(UPDATE_MARKER_END);
                push_all(&mut out, &end);
                out.push('\n');
                assert(out@ =~= spec_new_hook_contents(script@));
                chars_string(&out)
            },
        },
    }
}

/// The shebang line lies on one line, ends with no carriage return and is no
/// marker.
proof fn lemma_shebang()
    ensures
        no_newline(SHEBANG@),
        !ends_with_cr(SHEBANG@),
        SHEBANG@ != UPDATE_MARKER_START@,
        SHEBANG@ != UPDATE_MARKER_END@,
{
    reveal_strlit("#!/bin/sh");
    reveal_strlit("## START BRANCHLESS CONFIG");
    reveal_strlit("## END BRANCHLESS CONFIG");
    assert(SHEBANG@.len() == 9);
    assert(UPDATE_MARKER_START@.len() == 26);
    assert(UPDATE_MARKER_END@.len() == 24);
}

/// Installing a hook twice leaves the file as the first install wrote it,
/// whether the hook file was there before or not. This holds for a well-formed
/// script and, where the file was there, a file whose lines end with no stray
/// carriage return.
pub proof fn lemma_install_is_idempotent(existing: Option<Seq<char>>, script: Seq<char>)
    requires
        body_is_well_formed(script),
        existing matches Some(file) ==> lines_are_trimmed(file),
    ensures
        spec_hook_contents(false, Some(spec_hook_contents(false, existing, script)), script)
            == spec_hook_contents(false, existing, script),
{
    match existing {
        Some(file) => {
            lemma_update_is_idempotent(file, script);
        },
        None => {
            lemma_shebang();
            lemma_markers();
            let lines = seq![SHEBANG@, UPDATE_MARKER_START@];
            let opened = seq![UPDATE_MARKER_START@];
            assert(lines.drop_first() =~= opened);
            assert(opened.drop_first() =~= Seq::<Seq<char>>::empty());
            assert(update_lines(opened.drop_first(), script, true) =~= Seq::<char>::empty());
            assert(update_lines(opened, script, false) =~= managed_region(script));
            assert(update_lines(lines, script, false) =~= spec_new_hook_contents(script));
            lemma_update_of_updated_lines(lines, script);
        },
    }
}

/// The permission bits of a hook file once it is made executable: the bits it
/// had, and execution for owner, group and others.
pub fn executable_mode(mode: u32) -> (executable: u32)
    ensures
        executable == mode | 0o111,
{
    mode | 0o111
}

/// The script of the hook that runs after a commit.
pub const POST_COMMIT_SCRIPT: &'static str = "\ngit branchless hook-post-commit \"$@\"\n";

/// The script of the hook that runs after commits were rewritten.
pub const POST_REWRITE_SCRIPT: &'static str = "\ngit branchless hook-post-rewrite \"$@\"\n";

/// The script of the hook that runs after a check-out.
pub const POST_CHECKOUT_SCRIPT: &'static str = "\ngit branchless hook-post-checkout \"$@\"\n";

/// The script of the hook that runs before a garbage collection.
pub const PRE_AUTO_GC_SCRIPT: &'static str = "\ngit branchless hook-pre-auto-gc \"$@\"\n";

/// The script of the hook that runs in a reference transaction. A failure of
/// the hook is reported and does not cancel the transaction.
pub const REFERENCE_TRANSACTION_SCRIPT: &'static str =
    "\n# Avoid canceling the reference transaction in the case that `branchless` fails\n# for whatever reason.\ngit branchless hook-reference-transaction \"$@\" || (\n    echo 'branchless: Failed to process reference transaction!'\n    echo 'branchless: Some events (e.g. branch updates) may have been lost.'\n    echo 'branchless: This is a bug. Please report it.'\n)\n";

/// The hooks to install: the kind of each, and its script.
pub open spec fn spec_hook_scripts() -> Seq<(&'static str, &'static str)> {
    seq![
        ("post-commit", POST_COMMIT_SCRIPT),
        ("post-rewrite", POST_REWRITE_SCRIPT),
        ("post-checkout", POST_CHECKOUT_SCRIPT),
        ("pre-auto-gc", PRE_AUTO_GC_SCRIPT),
        ("reference-transaction", REFERENCE_TRANSACTION_SCRIPT),
    ]
}

/// The hooks to install, in the order of installing.
pub fn hooks_to_install() -> (hooks: Vec<(&'static str, &'static str)>)
    ensures
        hooks@ == spec_hook_scripts(),
{
    let mut hooks: Vec<(&'static str, &'static str)> = Vec::new();
    hooks.push(("post-commit", POST_COMMIT_SCRIPT));
    hooks.push(("post-rewrite", POST_REWRITE_SCRIPT));
    hooks.push(("post-checkout", POST_CHECKOUT_SCRIPT));
    hooks.push(("pre-auto-gc", PRE_AUTO_GC_SCRIPT));
    hooks.push(("reference-transaction", REFERENCE_TRANSACTION_SCRIPT));
    assert(hooks@ =~= spec_hook_scripts());
    hooks
}

/// The aliases to install: the name of each, and the command it stands for.
pub open spec fn spec_aliases() -> Seq<(&'static str, &'static str)> {
    seq![
        ("smartlog", "smartlog"),
        ("sl", "smartlog"),
        ("hide", "hide"),
        ("unhide", "unhide"),
        ("prev", "prev"),
        ("next", "next"),
        ("restack", "restack"),
        ("undo", "undo"),
        ("move", "move"),
    ]
}

/// The aliases to install, in the order of installing.
pub fn aliases_to_install() -> (aliases: Vec<(&'static str, &'static str)>)
    ensures
        aliases@ == spec_aliases(),
{
    let mut aliases: Vec<(&'static str, &'static str)> = Vec::new();
    aliases.push(("smartlog", "smartlog"));
    aliases.push(("sl", "smartlog"));
    aliases.push(("hide", "hide"));
    aliases.push(("unhide", "unhide"));
    aliases.push(("prev", "prev"));
    aliases.push(("next", "next"));
    aliases.push(("restack", "restack"));
    aliases.push(("undo", "undo"));
    aliases.push(("move", "move"));
    assert(aliases@ =~= spec_aliases());
    aliases
}

/// The two strings one after the other.
fn joined(first: &str, second: &str) -> (text: String)
    ensures
        text@ == first@ + second@,
{
    let mut out = str_chars(first);
    let more = str_chars(second);
    push_all(&mut out, &more);
    chars_string(&out)
}

/// The setting that makes `git <from>` stand for `git branchless <to>`: its
/// name and its value.
pub fn alias_setting(from: &str, to: &str) -> (setting: (String, String))
    ensures
        setting.0@ == "alias."@ + from@,
        setting.1@ == "branchless "@ + to@,
{
    (joined("alias.", from), joined("branchless ", to))
}

/// The setting that is switched off when the workflow is set up: the advice
/// that Git gives on a detached `HEAD`.
pub const DETACHED_HEAD_ADVICE: &'static str = "advice.detachedHead";

/// The settings to make: the name of each, and its value.
pub fn configs_to_set() -> (configs: Vec<(&'static str, bool)>)
    ensures
        configs@ == seq![(DETACHED_HEAD_ADVICE, false)],
{
    let mut configs: Vec<(&'static str, bool)> = Vec::new();
    configs.push((DETACHED_HEAD_ADVICE, false));
    configs
}

/// A version of Git: major, minor, patch.
#[derive(Clone, Copy, Debug, PartialEq, Eq, Structural)]
pub struct GitVersion(pub isize, pub isize, pub isize);

impl GitVersion {
    /// Whether `self` is an earlier version than `other`.
    pub open spec fn spec_is_before(self, other: GitVersion) -> bool {
        self.0 < other.0 || (self.0 == other.0 && (self.1 < other.1 || (self.1 == other.1 && self.2
            < other.2)))
    }

    /// Whether `self` is an earlier version than `other`.
    pub fn is_before(&self, other: &GitVersion) -> (before: bool)
        ensures
            before == self.spec_is_before(*other),
    {
        self.0 < other.0 || (self.0 == other.0 && (self.1 < other.1 || (self.1 == other.1 && self.2
            < other.2)))
    }

    /// Whether this Git reports reference transactions to hooks, which undo
    /// needs to take back reference updates: Git does from version 2.29.0.
    pub fn reports_reference_transactions(&self) -> (reports: bool)
        ensures
            reports == !self.spec_is_before(GitVersion(2, 29, 0)),
    {
        !self.is_before(&GitVersion(2, 29, 0))
    }
}

/// The position of the first `separator` in `text`, or the length of `text` if
/// there is none.
pub open spec fn first_separator(text: Seq<char>, separator: char) -> nat
    decreases text.len(),
{
    if text.len() == 0 || text[0] == separator {
        0
    } else {
        1 + first_separator(text.drop_first(), separator)
    }
}

/// The piece of `text` with the number `index`, counting from 0, where pieces
/// are what stands between separators; nothing if there are not so many.
pub open spec fn nth_piece(text: Seq<char>, separator: char, index: nat) -> Option<Seq<char>>
    decreases index,
{
    let end = first_separator(text, separator) as int;
    if index == 0 {
        Some(text.take(end))
    } else if end >= text.len() {
        None
    } else {
        nth_piece(text.skip(end + 1), separator, (index - 1) as nat)
    }
}

/// The number at the place `index` of the version `word`.
pub open spec fn version_number(word: Seq<char>, index: nat) -> Option<isize> {
    match nth_piece(word, '.', index) {
        Some(digits) => spec_parse_event_id(digits),
        None => None,
    }
}

/// The version that `output` tells, if it is what `git version` prints: three
/// words or more, the third of which starts with three numbers between full
/// stops.
pub open spec fn spec_parse_git_version(output: Seq<char>) -> Option<GitVersion> {
    match nth_piece(spec_trim(output), ' ', 2) {
        None => None,
        Some(word) => match (
            version_number(word, 0),
            version_number(word, 1),
            version_number(word, 2),
        ) {
            (Some(major), Some(minor), Some(patch)) => Some(GitVersion(major, minor, patch)),
            _ => None,
        },
    }
}

proof fn lemma_first_separator_is(text: Seq<char>, separator: char, at: int)
    requires
        0 <= at <= text.len(),
        forall|i: int| 0 <= i < at ==> text[i] != separator,
        at < text.len() ==> text[at] == separator,
    ensures
        first_separator(text, separator) == at,
    decreases at,
{
    if at > 0 {
        let rest = text.drop_first();
        assert forall|i: int| 0 <= i < at - 1 implies rest[i] != separator by {
            assert(rest[i] == text[i + 1]);
        }
        lemma_first_separator_is(rest, separator, at - 1);
    }
}

/// Where the piece with the number `index` of `text[from..to]` starts and ends.
fn find_piece(text: &Vec<char>, from: usize, to: usize, separator: char, index: usize) -> (bounds:
    Option<(usize, usize)>)
    requires
        from <= to <= text.len(),
    ensures
        match bounds {
            Some((start, end)) => from <= start <= end <= to && nth_piece(
                text@.subrange(from as int, to as int),
                separator,
                index as nat,
            ) == Some(text@.subrange(start as int, end as int)),
            None => nth_piece(text@.subrange(from as int, to as int), separator, index as nat)
                is None,
        },
{
    let mut start = from;
    let mut left = index;
    loop
        invariant
            from <= start <= to <= text.len(),
            nth_piece(text@.subrange(start as int, to as int), separator, left as nat)
                == nth_piece(text@.subrange(from as int, to as int), separator, index as nat),
        decreases left,
    {
        let ghost piece = text@.subrange(start as int, to as int);
        let mut end = start;
        while end < to && text[end] != separator
            invariant
                start <= end <= to <= text.len(),
                forall|k: int| start <= k < end ==> text@[k] != separator,
            decreases to - end,
        {
            end += 1;
        }
        proof {
            assert forall|i: int| 0 <= i < end - start implies piece[i] != separator by {
                assert(piece[i] == text@[start + i]);
            }
            lemma_first_separator_is(piece, separator, end - start);
            assert(piece.take(end - start) =~= text@.subrange(start as int, end as int));
        }
        if left == 0 {
            return Some((start, end));
        }
        if end >= to {
            return None;
        }
        proof {
            assert(piece.skip(end - start + 1) =~= text@.subrange(end + 1, to as int));
        }
        start = end + 1;
        left -= 1;
    }
}

/// The number at the place `index` of the version `text[from..to]`.
fn read_version_number(text: &Vec<char>, from: usize, to: usize, index: usize) -> (number: Option<
    isize,
>)
    requires
        from <= to <= text.len(),
    ensures
        number == version_number(text@.subrange(from as int, to as int), index as nat),
{
    match find_piece(text, from, to, '.', index) {
        Some((start, end)) => {
            let mut digits: Vec<char> = Vec::new();
            push_range(&mut digits, text, start, end);
            assert(digits@ =~= text@.subrange(start as int, end as int));
            let digits = chars_string(&digits);
            parse_event_id(digits.as_str())
        },
        None => None,
    }
}

impl GitVersion {
    /// Reads the version from what `git version` prints.
    pub fn parse(output: &str) -> (version: Option<GitVersion>)
        ensures
            version == spec_parse_git_version(output@),
    {
        let chars = str_chars(output);
        let (from, to) = trim_bounds(&chars);
        match find_piece(&chars, from, to, ' ', 2) {
            None => None,
            Some((start, end)) => {
                let major = read_version_number(&chars, start, end, 0);
                let minor = read_version_number(&chars, start, end, 1);
                let patch = read_version_number(&chars, start, end, 2);
                match (major, minor, patch) {
                    (Some(major), Some(minor), Some(patch)) => Some(
                        GitVersion(major, minor, patch),
                    ),
                    _ => None,
                }
            },
        }
    }
}

} // verus!
