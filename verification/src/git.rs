//! Git checkouts and repositories: how they are named, labelled and recognised.
use vstd::prelude::*;

use crate::path::{
    file_name_of, lemma_path_lt_irreflexive, lemma_path_lt_respects_eq,
    lemma_path_lt_total, lemma_path_lt_transitive, parent_file_name_of, path_eq,
    path_less, path_lt, paths_equal, text_file_name, text_parent_file_name, NameText, opt_bytes,
    path_id, path_identity, byte_text,
};
use crate::sort::{char_views, sort_by_text, stable_sorted_by_text};
use crate::text::{
    chars_eq, chars_eq_ignore_ascii_case, chars_of, clone_opt, ends_with, eq_ignore_ascii_case,
    find_char, index_of, lines, opt_str_text, opt_text, push_all, push_str, slice_chars, split_lines,
    split_once, starts_with, string_of, strip_prefix, strip_suffix, trim, trim_chars, trim_end,
    trim_end_chars,
};
use crate::words::{
    bare_marker, bare_marker_chars, bare_word, branch_marker, branch_marker_chars, detached_chars,
    detached_word, dot_bare, dot_bare_chars, dot_git, dot_git_chars, gap, repository_chars,
    repository_word, worktree_chars, worktree_word,
};

verus! {

/// A copy of optional bytes.
pub fn clone_bytes(b: &Option<Vec<u8>>) -> (r: Option<Vec<u8>>)
    ensures
        opt_bytes(r) == opt_bytes(*b),
{
    match b {
        Some(b) => Some(vstd::slice::slice_to_vec(b.as_slice())),
        None => None,
    }
}

/// What a checkout's worktree is compared by: its bytes (see `path_id`).
pub open spec fn worktree_id(c: CheckoutView) -> Seq<char> {
    path_id(c.worktree, c.worktree_bytes)
}

/// What a bare repository's common directory is compared by.
pub open spec fn common_id(b: BareView) -> Seq<char> {
    path_id(b.common, b.common_bytes)
}

/// What a bare repository's path is compared by.
pub open spec fn bare_path_id(b: BareView) -> Seq<char> {
    path_id(b.path, b.path_bytes)
}

/// A checkout (main or linked worktree) that a session can be opened for.
#[derive(Debug, PartialEq, Eq)]
pub struct Checkout {
    /// Git's common directory, the identity of the repository.
    pub repo: String,
    pub worktree: String,
    /// The worktree path's bytes when it is not valid UTF-8 (`worktree` then holds U+FFFD in
    /// place of the invalid ones).
    pub worktree_bytes: Option<Vec<u8>>,
    /// Whether the worktree directory's own name is valid Unicode (see `NameText`).
    pub name_is_text: bool,
    pub repo_name: String,
    pub branch: Option<String>,
    pub linked: bool,
}

/// A bare repository; it is a picker entry, never a session checkout.
#[derive(Debug, PartialEq, Eq)]
pub struct BareRepository {
    pub common: String,
    /// The common directory's bytes when they are not valid UTF-8.
    pub common_bytes: Option<Vec<u8>>,
    /// Which of the common directory's last names are valid Unicode.
    pub common_names: NameText,
    pub path: String,
    /// The path's bytes when they are not valid UTF-8.
    pub path_bytes: Option<Vec<u8>>,
}

/// An entry of the repository picker.
#[derive(Debug, PartialEq, Eq)]
pub enum Repository {
    Checkout(Checkout),
    Bare(BareRepository),
}

/// A checkout as the contracts see it.
pub struct CheckoutView {
    pub repo: Seq<char>,
    pub worktree: Seq<char>,
    pub worktree_bytes: Option<Seq<u8>>,
    pub name_is_text: bool,
    pub repo_name: Seq<char>,
    pub branch: Option<Seq<char>>,
    pub linked: bool,
}

/// A bare repository as the contracts see it.
pub struct BareView {
    pub common: Seq<char>,
    pub common_bytes: Option<Seq<u8>>,
    pub common_names: NameText,
    pub path: Seq<char>,
    pub path_bytes: Option<Seq<u8>>,
}

/// A picker entry as the contracts see it.
pub enum RepositoryView {
    Checkout(CheckoutView),
    Bare(BareView),
}

impl View for Checkout {
    type V = CheckoutView;

    open spec fn view(&self) -> CheckoutView {
        CheckoutView {
            repo: self.repo@,
            worktree: self.worktree@,
            worktree_bytes: opt_bytes(self.worktree_bytes),
            name_is_text: self.name_is_text,
            repo_name: self.repo_name@,
            branch: opt_text(self.branch),
            linked: self.linked,
        }
    }
}

impl View for BareRepository {
    type V = BareView;

    open spec fn view(&self) -> BareView {
        BareView {
            common: self.common@,
            common_bytes: opt_bytes(self.common_bytes),
            common_names: self.common_names,
            path: self.path@,
            path_bytes: opt_bytes(self.path_bytes),
        }
    }
}

impl View for Repository {
    type V = RepositoryView;

    open spec fn view(&self) -> RepositoryView {
        match self {
            Repository::Checkout(c) => RepositoryView::Checkout(c@),
            Repository::Bare(b) => RepositoryView::Bare(b@),
        }
    }
}

impl Clone for Checkout {
    fn clone(&self) -> (r: Self)
        ensures
            r@ == self@,
    {
        Checkout {
            repo: self.repo.clone(),
            worktree: self.worktree.clone(),
            worktree_bytes: clone_bytes(&self.worktree_bytes),
            name_is_text: self.name_is_text,
            repo_name: self.repo_name.clone(),
            branch: clone_opt(&self.branch),
            linked: self.linked,
        }
    }
}

impl Clone for BareRepository {
    fn clone(&self) -> (r: Self)
        ensures
            r@ == self@,
    {
        BareRepository {
            common: self.common.clone(),
            common_bytes: clone_bytes(&self.common_bytes),
            common_names: self.common_names,
            path: self.path.clone(),
            path_bytes: clone_bytes(&self.path_bytes),
        }
    }
}

impl Clone for Repository {
    fn clone(&self) -> (r: Self)
        ensures
            r@ == self@,
    {
        match self {
            Repository::Checkout(c) => Repository::Checkout(c.clone()),
            Repository::Bare(b) => Repository::Bare(b.clone()),
        }
    }
}

/// The name shown for a repository whose Git directory is `common`: its directory name without
/// `.git`, or the parent's name for a `.git` or `.bare` directory.
pub open spec fn repo_display_name(common: Seq<char>, t: NameText) -> Seq<char> {
    let base = match text_file_name(common, t) {
        Some(b) => b,
        None => repository_word(),
    };
    if base == dot_git() || base == dot_bare() {
        match text_parent_file_name(common, t) {
            Some(n) => n,
            None => repository_word(),
        }
    } else {
        match strip_suffix(base, dot_git()) {
            Some(s) => s,
            None => base,
        }
    }
}

/// Name of the repository whose Git directory is `common`.
pub fn display_name(common: &str, t: NameText) -> (r: String)
    ensures
        r@ == repo_display_name(common@, t),
{
    let p = chars_of(common);
    let own = if t.name {
        file_name_of(p.as_slice())
    } else {
        None
    };
    let base = match own {
        Some(b) => b,
        None => repository_chars(),
    };
    let dg = dot_git_chars();
    let db = dot_bare_chars();
    if chars_eq(base.as_slice(), dg.as_slice()) || chars_eq(base.as_slice(), db.as_slice()) {
        let parent = if t.parent {
            parent_file_name_of(p.as_slice())
        } else {
            None
        };
        let n = match parent {
            Some(n) => n,
            None => repository_chars(),
        };
        string_of(n.as_slice())
    } else if ends_with(base.as_slice(), dg.as_slice()) {
        let s = slice_chars(base.as_slice(), 0, base.len() - dg.len());
        string_of(s.as_slice())
    } else {
        string_of(base.as_slice())
    }
}

/// The worktree directory's own name, when it has one that is valid Unicode.
pub open spec fn worktree_file_name(c: CheckoutView) -> Option<Seq<char>> {
    text_file_name(c.worktree, NameText { name: c.name_is_text, parent: true })
}

/// Name of a checkout: the repository name, with `/` and the worktree's directory name for a
/// linked worktree.
pub open spec fn checkout_name(c: CheckoutView) -> Seq<char> {
    if c.linked {
        c.repo_name + seq!['/'] + match worktree_file_name(c) {
            Some(n) => n,
            None => worktree_word(),
        }
    } else {
        c.repo_name
    }
}

/// The branch shown for a checkout: linked worktrees show theirs (or `detached`); main
/// checkouts show none.
pub open spec fn shown_branch(c: CheckoutView) -> Option<Seq<char>> {
    if c.linked {
        Some(
            match c.branch {
                Some(b) => b,
                None => detached_word(),
            },
        )
    } else {
        None
    }
}

/// A branch column: marker, space and branch, or nothing.
pub open spec fn branch_label_text(branch: Option<Seq<char>>, nerd_fonts: bool) -> Seq<char> {
    match branch {
        Some(b) => branch_marker(nerd_fonts) + seq![' '] + b,
        None => seq![],
    }
}

/// A label: the base, then gap, marker, space and branch when there is a branch.
pub open spec fn with_branch(base: Seq<char>, branch: Option<Seq<char>>, nerd_fonts: bool) -> Seq<
    char,
> {
    match branch {
        Some(b) => base + gap() + branch_marker(nerd_fonts) + seq![' '] + b,
        None => base,
    }
}

/// The texts of a row of picker columns.
pub open spec fn row_texts(r: [String; 4]) -> Seq<Seq<char>> {
    r@.map_values(|s: String| s@)
}

impl Checkout {
    /// The checkout's name (see `checkout_name`).
    pub fn display_name(&self) -> (r: String)
        ensures
            r@ == checkout_name(self@),
    {
        if self.linked {
            let mut out = chars_of(self.repo_name.as_str());
            out.push('/');
            let w = chars_of(self.worktree.as_str());
            let own = if self.name_is_text {
                file_name_of(w.as_slice())
            } else {
                None
            };
            let n = match own {
                Some(n) => n,
                None => worktree_chars(),
            };
            push_all(&mut out, n.as_slice());
            string_of(out.as_slice())
        } else {
            self.repo_name.clone()
        }
    }

    /// Name and path, two spaces apart.
    pub fn base_label(&self) -> (r: String)
        ensures
            r@ == checkout_name(self@) + gap() + self@.worktree,
    {
        let mut out = chars_of(self.display_name().as_str());
        out.push(' ');
        out.push(' ');
        push_str(&mut out, self.worktree.as_str());
        string_of(out.as_slice())
    }

    /// Picker fields: marker, name, path, branch.
    pub fn columns(&self, nerd_fonts: bool) -> (r: [String; 4])
        ensures
            row_texts(r) == seq![
                seq![],
                checkout_name(self@),
                self@.worktree,
                branch_label_text(shown_branch(self@), nerd_fonts),
            ],
    {
        let branch = if self.linked {
            Some(
                match &self.branch {
                    Some(b) => b.clone(),
                    None => string_of(detached_chars().as_slice()),
                },
            )
        } else {
            None
        };
        let label = match &branch {
            Some(b) => crate::branch_label(Some(b.as_str()), nerd_fonts),
            None => crate::branch_label(None, nerd_fonts),
        };
        let r = [String::new(), self.display_name(), self.worktree.clone(), label];
        assert(row_texts(r) =~= seq![
            seq![],
            checkout_name(self@),
            self@.worktree,
            branch_label_text(shown_branch(self@), nerd_fonts),
        ]);
        r
    }

    /// The base label, followed for a linked worktree by its branch (or `detached`).
    pub fn label(&self, nerd_fonts: bool) -> (r: String)
        ensures
            r@ == with_branch(
                checkout_name(self@) + gap() + self@.worktree,
                shown_branch(self@),
                nerd_fonts,
            ),
    {
        let base = self.base_label();
        if self.linked {
            let mut out = chars_of(base.as_str());
            out.push(' ');
            out.push(' ');
            push_all(&mut out, branch_marker_chars(nerd_fonts).as_slice());
            out.push(' ');
            match &self.branch {
                Some(b) => push_str(&mut out, b.as_str()),
                None => push_all(&mut out, detached_chars().as_slice()),
            }
            string_of(out.as_slice())
        } else {
            base
        }
    }
}

/// Columns of a picker entry.
pub open spec fn repository_columns(r: RepositoryView, nerd_fonts: bool) -> Seq<Seq<char>> {
    match r {
        RepositoryView::Checkout(c) => seq![
            seq![],
            checkout_name(c),
            c.worktree,
            branch_label_text(shown_branch(c), nerd_fonts),
        ],
        RepositoryView::Bare(b) => seq![
            bare_marker(nerd_fonts),
            repo_display_name(b.common, b.common_names),
            b.path,
            seq![],
        ],
    }
}

/// ` [bare]  `, what separates a bare repository's name from its path in its label.
pub open spec fn bare_separator() -> Seq<char> {
    seq![' '] + bare_word() + gap()
}

/// Label of a picker entry.
pub open spec fn repository_label(r: RepositoryView, nerd_fonts: bool) -> Seq<char> {
    match r {
        RepositoryView::Checkout(c) => with_branch(
            checkout_name(c) + gap() + c.worktree,
            shown_branch(c),
            nerd_fonts,
        ),
        RepositoryView::Bare(b) => repo_display_name(b.common, b.common_names) + bare_separator()
            + b.path,
    }
}

impl Repository {
    /// Picker fields: marker, name, path, branch.
    pub fn columns(&self, nerd_fonts: bool) -> (r: [String; 4])
        ensures
            row_texts(r) == repository_columns(self@, nerd_fonts),
    {
        match self {
            Repository::Checkout(checkout) => checkout.columns(nerd_fonts),
            Repository::Bare(bare) => {
                let r = [
                    string_of(bare_marker_chars(nerd_fonts).as_slice()),
                    display_name(bare.common.as_str(), bare.common_names),
                    bare.path.clone(),
                    String::new(),
                ];
                assert(row_texts(r) =~= repository_columns(self@, nerd_fonts));
                r
            },
        }
    }

    /// Label used to order picker entries.
    pub fn label(&self, nerd_fonts: bool) -> (r: String)
        ensures
            r@ == repository_label(self@, nerd_fonts),
    {
        match self {
            Repository::Checkout(checkout) => checkout.label(nerd_fonts),
            Repository::Bare(bare) => {
                let mut out = chars_of(display_name(bare.common.as_str(), bare.common_names).as_str());
                out.push(' ');
                push_all(&mut out, bare_marker_chars(false).as_slice());
                out.push(' ');
                out.push(' ');
                push_str(&mut out, bare.path.as_str());
                assert(out@ =~= repository_label(self@, nerd_fonts));
                string_of(out.as_slice())
            },
        }
    }
}


/// Git's answer without its final newline.
pub open spec fn without_newline(value: Seq<char>) -> Seq<char> {
    match strip_suffix(value, seq!['\n']) {
        Some(v) => v,
        None => value,
    }
}

/// Git's answer without its final newline (one path per call keeps other newlines intact).
pub fn output_without_newline(value: String) -> (r: String)
    ensures
        r@ == without_newline(value@),
{
    let v = chars_of(value.as_str());
    let nl = ['\n'];
    assert(nl@ =~= seq!['\n']);
    if ends_with(v.as_slice(), &nl) {
        string_of(slice_chars(v.as_slice(), 0, v.len() - 1).as_slice())
    } else {
        value
    }
}

/// The target named by a `.git` file: its first line after `gitdir: `.
pub open spec fn gitdir_target(contents: Seq<char>) -> Option<Seq<char>> {
    let ls = lines(contents);
    if ls.len() == 0 {
        None
    } else {
        strip_prefix(ls[0], "gitdir: "@)
    }
}

/// The target named by the contents of a `.git` file.
pub fn git_file_target(contents: &str) -> (r: Option<String>)
    ensures
        opt_text(r) == gitdir_target(contents@),
{
    let c = chars_of(contents);
    let ls = split_lines(c.as_slice());
    if ls.len() == 0 {
        return None;
    }
    let prefix = chars_of("gitdir: ");
    if starts_with(ls[0].as_slice(), prefix.as_slice()) {
        Some(string_of(slice_chars(ls[0].as_slice(), prefix.len(), ls[0].len()).as_slice()))
    } else {
        None
    }
}

/// The branch that `HEAD` contents name: what follows `ref: refs/heads/`, without trailing
/// white space.
pub open spec fn head_branch(contents: Seq<char>) -> Option<Seq<char>> {
    match strip_prefix(contents, "ref: refs/heads/"@) {
        Some(b) => Some(trim_end(b)),
        None => None,
    }
}

/// The branch checked out according to the contents of `HEAD`.
pub fn branch_of_head(contents: &str) -> (r: Option<String>)
    ensures
        opt_text(r) == head_branch(contents@),
{
    let c = chars_of(contents);
    let prefix = chars_of("ref: refs/heads/");
    if starts_with(c.as_slice(), prefix.as_slice()) {
        let rest = slice_chars(c.as_slice(), prefix.len(), c.len());
        Some(string_of(trim_end_chars(rest.as_slice()).as_slice()))
    } else {
        None
    }
}

/// `s` without trailing white space.
pub fn trimmed_end(s: &str) -> (r: String)
    ensures
        r@ == trim_end(s@),
{
    let c = chars_of(s);
    string_of(trim_end_chars(c.as_slice()).as_slice())
}

/// `s` without leading or trailing white space.
pub fn trimmed(s: &str) -> (r: String)
    ensures
        r@ == trim(s@),
{
    let c = chars_of(s);
    string_of(trim_chars(c.as_slice()).as_slice())
}

/// The `core.bare` setting read from configuration lines, `core` telling whether the lines
/// follow a `[core]` header; true when it is not set.
pub open spec fn bare_setting(ls: Seq<Seq<char>>, core: bool) -> bool
    decreases ls.len(),
{
    if ls.len() == 0 {
        true
    } else {
        let line = trim(ls[0]);
        if line.len() > 0 && line[0] == '[' {
            bare_setting(ls.drop_first(), eq_ignore_ascii_case(line, "[core]"@))
        } else if core && split_once(line, '=') is Some && eq_ignore_ascii_case(
            trim(split_once(line, '=').unwrap().0),
            "bare"@,
        ) {
            eq_ignore_ascii_case(trim(split_once(line, '=').unwrap().1), "true"@)
        } else {
            bare_setting(ls.drop_first(), core)
        }
    }
}

/// Whether a Git directory is bare by its `config` (absent when it cannot be read): bare unless
/// `core.bare` says otherwise.
pub open spec fn config_is_bare(config: Option<Seq<char>>) -> bool {
    match config {
        None => true,
        Some(c) => bare_setting(lines(c), false),
    }
}

/// Whether a Git directory with this `config` file (if readable) is bare.
pub fn is_bare(config: Option<&str>) -> (r: bool)
    ensures
        r == config_is_bare(
            match config {
                Some(c) => Some(c@),
                None => None,
            },
        ),
{
    let text = match config {
        None => return true,
        Some(c) => c,
    };
    let c = chars_of(text);
    let ls = split_lines(c.as_slice());
    let ghost lv = lines(text@);
    let core_header = chars_of("[core]");
    let bare_key = chars_of("bare");
    let true_value = chars_of("true");
    let mut core = false;
    let mut i: usize = 0;
    assert(lv.skip(0) =~= lv);
    while i < ls.len()
        invariant
            i <= ls@.len() == lv.len(),
            forall|k: int| 0 <= k < ls@.len() ==> #[trigger] ls@[k]@ == lv[k],
            core_header@ == "[core]"@,
            bare_key@ == "bare"@,
            true_value@ == "true"@,
            config_is_bare(
                match config {
                    Some(c) => Some(c@),
                    None => None,
                },
            ) == bare_setting(lv, false),
            bare_setting(lv, false) == bare_setting(lv.skip(i as int), core),
        decreases ls@.len() - i,
    {
        let ghost rest = lv.skip(i as int);
        assert(rest[0] == lv[i as int]);
        assert(rest.drop_first() =~= lv.skip(i + 1));
        let line = trim_chars(ls[i].as_slice());
        if line.len() > 0 && line[0] == '[' {
            core = chars_eq_ignore_ascii_case(line.as_slice(), core_header.as_slice());
        } else if core {
            match find_char(line.as_slice(), '=', 0) {
                Some(j) => {
                    assert(line@.skip(0) =~= line@);
                    let key = trim_chars(slice_chars(line.as_slice(), 0, j).as_slice());
                    assert(line@.take(j as int) =~= line@.subrange(0, j as int));
                    if chars_eq_ignore_ascii_case(key.as_slice(), bare_key.as_slice()) {
                        let value = trim_chars(
                            slice_chars(line.as_slice(), j + 1, line.len()).as_slice(),
                        );
                        assert(line@.skip(j + 1) =~= line@.subrange(j + 1, line@.len() as int));
                        assert(line@ == trim(rest[0]));
                        assert(split_once(line@, '=') == Some((line@.take(j as int), line@.skip(j + 1))));
                        return chars_eq_ignore_ascii_case(value.as_slice(), true_value.as_slice());
                    }
                },
                None => {
                    assert(line@.skip(0) =~= line@);
                },
            }
        }
        i = i + 1;
    }
    true
}


/// What Git reports about a directory: its common and own Git directories, its top-level
/// worktree (absent outside one), and whether it is bare.
#[derive(Debug, PartialEq, Eq)]
pub struct Probe {
    pub common: String,
    pub git_dir: String,
    pub top: Option<String>,
    /// The bytes of `common`, `git_dir` and `top` where they are not valid UTF-8.
    pub common_bytes: Option<Vec<u8>>,
    pub git_dir_bytes: Option<Vec<u8>>,
    pub top_bytes: Option<Vec<u8>>,
    /// Whether the top-level directory's own name is valid Unicode (see `NameText`).
    pub top_name_is_text: bool,
    pub bare: bool,
}

/// Git's answers as the contracts see them.
pub struct ProbeView {
    pub common: Seq<char>,
    pub git_dir: Seq<char>,
    pub top: Option<Seq<char>>,
    pub common_bytes: Option<Seq<u8>>,
    pub git_dir_bytes: Option<Seq<u8>>,
    pub top_bytes: Option<Seq<u8>>,
    pub top_name_is_text: bool,
    pub bare: bool,
}

impl View for Probe {
    type V = ProbeView;

    open spec fn view(&self) -> ProbeView {
        ProbeView {
            common: self.common@,
            git_dir: self.git_dir@,
            top: opt_text(self.top),
            common_bytes: opt_bytes(self.common_bytes),
            git_dir_bytes: opt_bytes(self.git_dir_bytes),
            top_bytes: opt_bytes(self.top_bytes),
            top_name_is_text: self.top_name_is_text,
            bare: self.bare,
        }
    }
}

impl Clone for Probe {
    fn clone(&self) -> (r: Self)
        ensures
            r@ == self@,
    {
        Probe {
            common: self.common.clone(),
            git_dir: self.git_dir.clone(),
            top: clone_opt(&self.top),
            common_bytes: clone_bytes(&self.common_bytes),
            git_dir_bytes: clone_bytes(&self.git_dir_bytes),
            top_bytes: clone_bytes(&self.top_bytes),
            top_name_is_text: self.top_name_is_text,
            bare: self.bare,
        }
    }
}

/// Why a Git operation was refused.
#[derive(Debug)]
pub enum GitError {
    /// The selected checkout (its worktree path) is no longer the same non-bare worktree.
    ChangedCheckout(String),
}

/// The text of a checkout that changed under the user.
pub open spec fn changed_checkout_text(worktree: Seq<char>) -> Seq<char> {
    "selected checkout "@ + worktree
        + " is no longer the same non-bare Git worktree; rerun grove and select it again"@
}

impl GitError {
    /// The message that explains the refusal.
    pub fn message(&self) -> (r: String)
        ensures
            r@ == match self {
                GitError::ChangedCheckout(w) => changed_checkout_text(w@),
            },
    {
        match self {
            GitError::ChangedCheckout(w) => {
                let mut out = chars_of("selected checkout ");
                push_str(&mut out, w.as_str());
                push_str(
                    &mut out,
                    " is no longer the same non-bare Git worktree; rerun grove and select it again",
                );
                string_of(out.as_slice())
            },
        }
    }
}

/// Whether a fresh probe still shows `c` as the same non-bare worktree: same top level, same
/// repository identity, and linked exactly when its Git directory is not the common one.
pub open spec fn still_same_checkout(c: CheckoutView, p: ProbeView) -> bool {
    &&& !p.bare
    &&& p.top matches Some(t) && path_eq(path_id(t, p.top_bytes), worktree_id(c))
    &&& p.common == c.repo
    &&& !path_eq(probe_git_dir_id(p), probe_common_id(p)) == c.linked
}

/// What a probe's common directory is compared by.
pub open spec fn probe_common_id(p: ProbeView) -> Seq<char> {
    path_id(p.common, p.common_bytes)
}

/// What a probe's own Git directory is compared by.
pub open spec fn probe_git_dir_id(p: ProbeView) -> Seq<char> {
    path_id(p.git_dir, p.git_dir_bytes)
}

/// Accepts the checkout only when a fresh probe of its worktree (`probe`, absent when Git could
/// not tell) still shows the same non-bare worktree.
pub fn validate_checkout(checkout: &Checkout, probe: Option<&Probe>) -> (r: Result<(), GitError>)
    ensures
        r is Ok <==> (probe matches Some(p) && still_same_checkout(checkout@, p@)),
        r matches Err(GitError::ChangedCheckout(w)) ==> w@ == checkout@.worktree,
{
    if let Some(info) = probe {
        let same_top = match &info.top {
            Some(t) => {
                let top = path_identity(t.as_str(), &info.top_bytes);
                let worktree = path_identity(checkout.worktree.as_str(), &checkout.worktree_bytes);
                paths_equal(top.as_str(), worktree.as_str())
            },
            None => false,
        };
        let git_dir = path_identity(info.git_dir.as_str(), &info.git_dir_bytes);
        let common = path_identity(info.common.as_str(), &info.common_bytes);
        if !info.bare && same_top && info.common == checkout.repo && (!paths_equal(
            git_dir.as_str(),
            common.as_str(),
        )) == checkout.linked {
            return Ok(());
        }
    }
    Err(GitError::ChangedCheckout(checkout.worktree.clone()))
}

/// Whether a listed worktree path (its bytes, `path`) is a worktree's top level or its Git
/// directory, not a directory inside another worktree.
pub open spec fn candidate_matches_spec(path: Seq<u8>, p: ProbeView) -> bool {
    p.top matches Some(t) && (path_eq(byte_text(path), path_id(t, p.top_bytes)) || path_eq(
        byte_text(path),
        probe_git_dir_id(p),
    ))
}

/// Whether a listed worktree path (its bytes) is a worktree's top level or its Git directory.
pub fn candidate_matches(path: &Vec<u8>, info: &Probe) -> (r: bool)
    ensures
        r == candidate_matches_spec(path@, info@),
{
    let p = path_identity("", &Some(vstd::slice::slice_to_vec(path.as_slice())));
    match &info.top {
        Some(t) => {
            let top = path_identity(t.as_str(), &info.top_bytes);
            let git_dir = path_identity(info.git_dir.as_str(), &info.git_dir_bytes);
            paths_equal(p.as_str(), top.as_str()) || paths_equal(p.as_str(), git_dir.as_str())
        },
        None => false,
    }
}

/// A worktree record of `git worktree list --porcelain -z`.
#[derive(Debug)]
pub struct Listed {
    pub path: String,
    pub branch: Option<String>,
    pub prunable: bool,
    pub bare: bool,
}

/// A worktree record as the contracts see it.
pub struct ListedView {
    pub path: Seq<char>,
    pub branch: Option<Seq<char>>,
    pub prunable: bool,
    pub bare: bool,
}

impl View for Listed {
    type V = ListedView;

    open spec fn view(&self) -> ListedView {
        ListedView {
            path: self.path@,
            branch: opt_text(self.branch),
            prunable: self.prunable,
            bare: self.bare,
        }
    }
}

/// Views of worktree records.
pub open spec fn listed_views(v: Seq<Listed>) -> Seq<ListedView> {
    v.map_values(|l: Listed| l@)
}

/// `str::split(c)`: every piece between separators, empty ones included.
pub open spec fn split_all(s: Seq<char>, c: char) -> Seq<Seq<char>>
    decreases s.len(),
{
    match index_of(s, c) {
        None => seq![s],
        Some(i) => {
            proof {
                crate::text::lemma_index_of(s, c);
            }
            seq![s.take(i)] + split_all(s.skip(i + 1), c)
        },
    }
}

/// The records after reading `field`: a `worktree` field starts one; the others describe the
/// last record, if any.
pub open spec fn listed_step(acc: Seq<ListedView>, field: Seq<char>) -> Seq<ListedView> {
    if strip_prefix(field, "worktree "@) is Some {
        acc.push(
            ListedView {
                path: strip_prefix(field, "worktree "@).unwrap(),
                branch: None,
                prunable: false,
                bare: false,
            },
        )
    } else if acc.len() == 0 {
        acc
    } else if strip_prefix(field, "branch refs/heads/"@) is Some {
        acc.update(
            acc.len() - 1,
            ListedView {
                branch: Some(strip_prefix(field, "branch refs/heads/"@).unwrap()),
                ..acc.last()
            },
        )
    } else if field == "bare"@ {
        acc.update(acc.len() - 1, ListedView { bare: true, ..acc.last() })
    } else if field == "detached"@ {
        acc.update(acc.len() - 1, ListedView { branch: None, ..acc.last() })
    } else if field == "prunable"@ || strip_prefix(field, "prunable "@) is Some {
        acc.update(acc.len() - 1, ListedView { prunable: true, ..acc.last() })
    } else {
        acc
    }
}

/// Whether a porcelain field says that its worktree is prunable: the word `prunable`, alone or
/// followed by a space and a reason.
pub open spec fn prunable_marker(field: Seq<char>) -> bool {
    field == "prunable"@ || "prunable "@.is_prefix_of(field)
}

/// Only a prunable marker marks a record prunable. Reading any other field (`locked`,
/// `locked <reason>`, `HEAD <sha>`, ...) leaves the prunable flag of every record as it was, and
/// a record that a `worktree` field starts is not prunable; a marker after a record marks that
/// last record, and nothing else about it changes.
pub proof fn lemma_only_markers_prune(acc: Seq<ListedView>, field: Seq<char>)
    ensures
        listed_step(acc, field).len() >= acc.len(),
        !prunable_marker(field) ==> forall|i: int|
            0 <= i < acc.len() ==> #[trigger] listed_step(acc, field)[i].prunable == acc[i].prunable,
        forall|i: int|
            acc.len() <= i < listed_step(acc, field).len() ==> !(#[trigger] listed_step(
                acc,
                field,
            )[i]).prunable,
        prunable_marker(field) && acc.len() > 0 ==> listed_step(acc, field) == acc.update(
            acc.len() - 1,
            ListedView { prunable: true, ..acc.last() },
        ),
{
    reveal_strlit("prunable");
    reveal_strlit("prunable ");
    reveal_strlit("worktree ");
    reveal_strlit("branch refs/heads/");
    reveal_strlit("bare");
    reveal_strlit("detached");
    if prunable_marker(field) {
        assert(field.len() > 0 && field[0] == 'p') by {
            if field != "prunable"@ {
                assert(field.subrange(0, 9)[0] == field[0]);
            }
        }
        if strip_prefix(field, "worktree "@) is Some {
            assert(field.take(9)[0] == field[0]);
        }
        if strip_prefix(field, "branch refs/heads/"@) is Some {
            assert(field.take(18)[0] == field[0]);
        }
        assert(field != "bare"@);
        assert(field != "detached"@);
        if field != "prunable"@ {
            assert(field.take(9) =~= "prunable "@);
        }
    } else {
        if strip_prefix(field, "prunable "@) is Some {
            assert("prunable "@.is_prefix_of(field));
        }
    }
}

/// Records read from fields none of which is a prunable marker are none of them prunable.
proof fn lemma_unmarked_prefix(fields: Seq<Seq<char>>, k: int)
    requires
        0 <= k <= fields.len(),
        forall|m: int| 0 <= m < fields.len() ==> !prunable_marker(#[trigger] fields[m]),
    ensures
        forall|i: int|
            0 <= i < listed_prefix(fields, k).len() ==> !(#[trigger] listed_prefix(fields, k)[i]).prunable,
    decreases k,
{
    if k > 0 {
        lemma_unmarked_prefix(fields, k - 1);
        lemma_only_markers_prune(listed_prefix(fields, k - 1), fields[k - 1]);
        assert(listed_prefix(fields, k) == listed_step(listed_prefix(fields, k - 1), fields[k - 1]));
    }
}

/// A listing with no `prunable` field lists no worktree as prunable, whatever else it says of
/// them (locked ones included).
pub proof fn lemma_unmarked_listing_keeps_all(listing: Seq<char>)
    requires
        forall|m: int|
            0 <= m < split_all(listing, '\0').len() ==> !prunable_marker(
                #[trigger] split_all(listing, '\0')[m],
            ),
    ensures
        forall|i: int|
            0 <= i < listed_worktrees_spec(listing).len() ==> !(#[trigger] listed_worktrees_spec(
                listing,
            )[i]).prunable,
{
    let fields = split_all(listing, '\0');
    lemma_unmarked_prefix(fields, fields.len() as int);
}

/// The records of the first `k` fields.
pub open spec fn listed_prefix(fields: Seq<Seq<char>>, k: int) -> Seq<ListedView>
    decreases k,
{
    if k <= 0 {
        seq![]
    } else {
        listed_step(listed_prefix(fields, k - 1), fields[k - 1])
    }
}

/// The worktree records of a NUL-separated porcelain listing.
pub open spec fn listed_worktrees_spec(listing: Seq<char>) -> Seq<ListedView> {
    let fields = split_all(listing, '\0');
    listed_prefix(fields, fields.len() as int)
}

fn split_all_chars(s: &[char], c: char) -> (r: Vec<Vec<char>>)
    ensures
        r@.len() == split_all(s@, c).len(),
        forall|k: int| 0 <= k < r@.len() ==> #[trigger] r@[k]@ == split_all(s@, c)[k],
{
    let mut r: Vec<Vec<char>> = Vec::new();
    let ghost mut done: Seq<Seq<char>> = seq![];
    let mut pos: usize = 0;
    assert(s@.skip(0) =~= s@);
    assert(split_all(s@, c) =~= done + split_all(s@.skip(0), c));
    loop
        invariant
            pos <= s@.len(),
            s@.len() == s.len(),
            r@.len() == done.len(),
            forall|k: int| 0 <= k < r@.len() ==> #[trigger] r@[k]@ == done[k],
            split_all(s@, c) == done + split_all(s@.skip(pos as int), c),
        decreases s@.len() - pos,
    {
        let ghost rest = s@.skip(pos as int);
        match find_char(s, c, pos) {
            None => {
                let piece = slice_chars(s, pos, s.len());
                proof {
                    assert(piece@ =~= rest);
                    done = done.push(piece@);
                    assert(split_all(s@, c) =~= done);
                }
                r.push(piece);
                return r;
            },
            Some(j) => {
                let piece = slice_chars(s, pos, j);
                proof {
                    assert(piece@ =~= rest.take(j - pos));
                    assert(rest.skip(j - pos + 1) =~= s@.skip(j + 1));
                    assert(split_all(rest, c) == seq![piece@] + split_all(rest.skip(j - pos + 1), c));
                    done = done.push(piece@);
                    assert(split_all(s@, c) =~= done + split_all(s@.skip(j + 1), c));
                }
                r.push(piece);
                pos = j + 1;
            },
        }
    }
}

/// Reads the worktree records of `git worktree list --porcelain -z`.
pub fn listed_worktrees(listing: &str) -> (r: Vec<Listed>)
    ensures
        listed_views(r@) == listed_worktrees_spec(listing@),
{
    let chars = chars_of(listing);
    let fields = split_all_chars(chars.as_slice(), '\0');
    let ghost fv = split_all(listing@, '\0');
    let worktree_prefix = chars_of("worktree ");
    let branch_prefix = chars_of("branch refs/heads/");
    let bare_word = chars_of("bare");
    let detached = chars_of("detached");
    let prunable = chars_of("prunable");
    let prunable_prefix = chars_of("prunable ");
    let mut out: Vec<Listed> = Vec::new();
    let mut k: usize = 0;
    while k < fields.len()
        invariant
            k <= fields@.len() == fv.len(),
            fv == split_all(listing@, '\0'),
            forall|m: int| 0 <= m < fields@.len() ==> #[trigger] fields@[m]@ == fv[m],
            worktree_prefix@ == "worktree "@,
            branch_prefix@ == "branch refs/heads/"@,
            bare_word@ == "bare"@,
            detached@ == "detached"@,
            prunable@ == "prunable"@,
            prunable_prefix@ == "prunable "@,
            listed_views(out@) == listed_prefix(fv, k as int),
        decreases fields@.len() - k,
    {
        let f = &fields[k];
        let ghost acc = listed_views(out@);
        let n = out.len();
        assert(fv[k as int] == f@);
        if starts_with(f.as_slice(), worktree_prefix.as_slice()) {
            let path = string_of(slice_chars(f.as_slice(), worktree_prefix.len(), f.len()).as_slice());
            out.push(Listed { path, branch: None, prunable: false, bare: false });
            assert(listed_views(out@) =~= listed_step(acc, f@));
        } else if n == 0 {
        } else if starts_with(f.as_slice(), branch_prefix.as_slice()) {
            let b = string_of(slice_chars(f.as_slice(), branch_prefix.len(), f.len()).as_slice());
            let mut last = out.pop().unwrap();
            last.branch = Some(b);
            out.push(last);
            assert(listed_views(out@) =~= listed_step(acc, f@));
        } else if chars_eq(f.as_slice(), bare_word.as_slice()) {
            let mut last = out.pop().unwrap();
            last.bare = true;
            out.push(last);
            assert(listed_views(out@) =~= listed_step(acc, f@));
        } else if chars_eq(f.as_slice(), detached.as_slice()) {
            let mut last = out.pop().unwrap();
            last.branch = None;
            out.push(last);
            assert(listed_views(out@) =~= listed_step(acc, f@));
        } else if chars_eq(f.as_slice(), prunable.as_slice()) || starts_with(
            f.as_slice(),
            prunable_prefix.as_slice(),
        ) {
            let mut last = out.pop().unwrap();
            last.prunable = true;
            out.push(last);
            assert(listed_views(out@) =~= listed_step(acc, f@));
        }
        k = k + 1;
    }
    out
}


/// A listed worktree resolved: its canonical path's bytes and Git's probe of it.
pub open spec fn resolution_view(o: Option<(Vec<u8>, Probe)>) -> Option<(Seq<u8>, ProbeView)> {
    match o {
        Some((p, info)) => Some((p@, info@)),
        None => None,
    }
}

/// Views of resolutions.
pub open spec fn resolution_views(v: Seq<Option<(Vec<u8>, Probe)>>) -> Seq<
    Option<(Seq<u8>, ProbeView)>,
> {
    v.map_values(|o: Option<(Vec<u8>, Probe)>| resolution_view(o))
}

/// The checkout a listed worktree of `bare` stands for: not bare or prunable, resolved, of the
/// same repository without being its common directory, and listed by its top level or Git
/// directory.
pub open spec fn accepted_worktree(
    bare: BareView,
    l: ListedView,
    res: Option<(Seq<u8>, ProbeView)>,
) -> Option<CheckoutView> {
    if l.bare || l.prunable {
        None
    } else {
        match res {
            None => None,
            Some((path, info)) => if !path_eq(probe_common_id(info), common_id(bare)) || path_eq(
                probe_git_dir_id(info),
                common_id(bare),
            ) || !candidate_matches_spec(path, info) {
                None
            } else {
                Some(
                    CheckoutView {
                        repo: bare.common,
                        repo_name: repo_display_name(bare.common, bare.common_names),
                        worktree: info.top.unwrap(),
                        worktree_bytes: info.top_bytes,
                        name_is_text: info.top_name_is_text,
                        branch: l.branch,
                        linked: true,
                    },
                )
            },
        }
    }
}

/// The accepted checkouts of the first `k` records, each worktree once (first record kept).
pub open spec fn collected_worktrees(
    bare: BareView,
    ls: Seq<ListedView>,
    rs: Seq<Option<(Seq<u8>, ProbeView)>>,
    k: int,
) -> Seq<CheckoutView>
    decreases k,
{
    if k <= 0 {
        seq![]
    } else {
        let prev = collected_worktrees(bare, ls, rs, k - 1);
        match accepted_worktree(bare, ls[k - 1], rs[k - 1]) {
            Some(c) => if exists|j: int|
                0 <= j < prev.len() && path_eq(worktree_id(#[trigger] prev[j]), worktree_id(c)) {
                prev
            } else {
                prev.push(c)
            },
            None => prev,
        }
    }
}

/// Plain-text labels of checkouts, the key they are ordered by.
pub open spec fn checkout_labels(v: Seq<CheckoutView>) -> Seq<Seq<char>> {
    v.map_values(
        |c: CheckoutView| with_branch(checkout_name(c) + gap() + c.worktree, shown_branch(c), false),
    )
}

/// Views of checkouts.
pub open spec fn checkout_views(v: Seq<Checkout>) -> Seq<CheckoutView> {
    v.map_values(|c: Checkout| c@)
}

/// `out` holds `inp` ordered by plain-text label, equal labels in their order in `inp`.
pub open spec fn label_order(out: Seq<CheckoutView>, inp: Seq<CheckoutView>) -> bool {
    exists|perm: Seq<int>| #[trigger] stable_sorted_by_text(out, inp, checkout_labels(inp), perm)
}

/// The active linked worktrees of a selected bare repository, from Git's registry `listed` and,
/// for each record, its resolution (`None` when it could not be resolved); each worktree once,
/// ordered by label.
pub fn worktrees(
    bare: &BareRepository,
    listed: &Vec<Listed>,
    resolved: &Vec<Option<(Vec<u8>, Probe)>>,
) -> (r: Vec<Checkout>)
    requires
        resolved@.len() == listed@.len(),
    ensures
        label_order(
            checkout_views(r@),
            collected_worktrees(
                bare@,
                listed_views(listed@),
                resolution_views(resolved@),
                listed@.len() as int,
            ),
        ),
{
    let ghost ls = listed_views(listed@);
    let ghost rs = resolution_views(resolved@);
    let mut found: Vec<Checkout> = Vec::new();
    let mut keys: Vec<Vec<char>> = Vec::new();
    let mut i: usize = 0;
    while i < listed.len()
        invariant
            i <= listed@.len() == resolved@.len(),
            ls == listed_views(listed@),
            rs == resolution_views(resolved@),
            checkout_views(found@) == collected_worktrees(bare@, ls, rs, i as int),
            char_views(keys@) == checkout_labels(checkout_views(found@)),
        decreases listed@.len() - i,
    {
        let l = &listed[i];
        assert(ls[i as int] == l@);
        assert(rs[i as int] == resolution_view(resolved@[i as int]));
        let ghost prev = checkout_views(found@);
        if !l.bare && !l.prunable {
            if let Some((path, info)) = &resolved[i] {
                let info_common = path_identity(info.common.as_str(), &info.common_bytes);
                let info_git_dir = path_identity(info.git_dir.as_str(), &info.git_dir_bytes);
                let bare_common = path_identity(bare.common.as_str(), &bare.common_bytes);
                if paths_equal(info_common.as_str(), bare_common.as_str()) && !paths_equal(
                    info_git_dir.as_str(),
                    bare_common.as_str(),
                ) && candidate_matches(path, info) {
                    let top = info.top.as_ref().unwrap();
                    let top_id = path_identity(top.as_str(), &info.top_bytes);
                    let mut seen = false;
                    let mut j: usize = 0;
                    while j < found.len()
                        invariant
                            j <= found@.len(),
                            prev == checkout_views(found@),
                            !seen ==> forall|m: int|
                                0 <= m < j ==> !path_eq(worktree_id(#[trigger] prev[m]), top_id@),
                            seen ==> exists|m: int|
                                0 <= m < found@.len() && path_eq(worktree_id(#[trigger] prev[m]), top_id@),
                        decreases found@.len() - j,
                    {
                        assert(prev[j as int] == found@[j as int]@);
                        let w = path_identity(found[j].worktree.as_str(), &found[j].worktree_bytes);
                        if paths_equal(w.as_str(), top_id.as_str()) {
                            assert(path_eq(worktree_id(prev[j as int]), top_id@));
                            seen = true;
                        }
                        j = j + 1;
                    }
                    if !seen {
                        let c = Checkout {
                            repo: bare.common.clone(),
                            repo_name: display_name(bare.common.as_str(), bare.common_names),
                            worktree: top.clone(),
                            worktree_bytes: clone_bytes(&info.top_bytes),
                            name_is_text: info.top_name_is_text,
                            branch: clone_opt(&l.branch),
                            linked: true,
                        };
                        let key = chars_of(c.label(false).as_str());
                        let ghost cv = c@;
                        let ghost old_keys = keys@;
                        found.push(c);
                        keys.push(key);
                        assert(checkout_views(found@) =~= prev.push(cv));
                        assert(char_views(keys@) =~= char_views(old_keys).push(key@));
                        assert(checkout_labels(prev.push(cv)) =~= checkout_labels(prev).push(
                            with_branch(checkout_name(cv) + gap() + cv.worktree, shown_branch(cv), false),
                        ));
                    }
                }
            }
        }
        i = i + 1;
    }
    let ghost inp = found@;
    let ghost inv = checkout_views(found@);
    let sorted = sort_by_text(found, keys);
    proof {
        let perm = choose|perm: Seq<int>|
            stable_sorted_by_text(sorted@, inp, checkout_labels(inv), perm);
        assert(stable_sorted_by_text(checkout_views(sorted@), inv, checkout_labels(inv), perm)) by {
            assert forall|k: int| 0 <= k < perm.len() implies #[trigger] checkout_views(sorted@)[k]
                == inv[perm[k]] by {
                assert(sorted@[k] == inp[perm[k]]);
            }
        }
    }
    sorted
}


/// Whether discovery goes into a directory entry at `depth` below its root, named `name`
/// (`None` when the name is not UTF-8), whose parent `parent_bare` looks like a bare repository:
/// never into a `.git` below a root, nor into the `objects`, `refs`, `hooks` or `logs` of a bare
/// repository.
pub open spec fn descends(depth: nat, name: Option<Seq<char>>, parent_bare: bool) -> bool {
    if depth == 0 || name != Some(dot_git()) {
        !(name matches Some(n) && (n == "objects"@ || n == "refs"@ || n == "hooks"@ || n
            == "logs"@)) || !parent_bare
    } else {
        false
    }
}

/// Whether discovery goes into a directory entry (see `descends`).
pub fn descend(depth: usize, name: Option<&str>, parent_bare: bool) -> (r: bool)
    ensures
        r == descends(depth as nat, opt_str_text(name), parent_bare),
{
    let n = match name {
        Some(t) => Some(chars_of(t)),
        None => None,
    };
    let is_dot_git = match &n {
        Some(t) => chars_eq(t.as_slice(), dot_git_chars().as_slice()),
        None => false,
    };
    if depth == 0 || !is_dot_git {
        let inner = match &n {
            Some(t) => {
                let a = chars_of("objects");
                let b = chars_of("refs");
                let c = chars_of("hooks");
                let d = chars_of("logs");
                chars_eq(t.as_slice(), a.as_slice()) || chars_eq(t.as_slice(), b.as_slice())
                    || chars_eq(t.as_slice(), c.as_slice()) || chars_eq(
                    t.as_slice(),
                    d.as_slice(),
                )
            },
            None => false,
        };
        !inner || !parent_bare
    } else {
        false
    }
}

/// What the file system shows of a discovery anchor, a directory that holds `.git` or looks
/// like a bare repository. Paths are canonical; a file's text is absent when it cannot be read.
#[derive(Debug)]
pub enum AnchorFacts {
    /// `.git` is a file. `git_dir`: the directory it names (absent when it names none that
    /// exists); `marker`: whether that directory looks like a bare repository (`HEAD`, `objects`,
    /// `refs`); `config` and `head`: its `config` and `HEAD` files; `common`: the directory its
    /// `commondir` file names, when there is one that exists. `git_dir_names` and `common_names`
    /// tell which of those directories' last names are valid Unicode.
    GitFile {
        git_dir: Option<String>,
        git_dir_bytes: Option<Vec<u8>>,
        git_dir_names: NameText,
        marker: bool,
        config: Option<String>,
        common: Option<String>,
        common_bytes: Option<Vec<u8>>,
        common_names: NameText,
        head: Option<String>,
    },
    /// `.git` is a directory, canonically `git_dir` (absent when that fails), with `HEAD` file
    /// `head`.
    GitDirectory {
        git_dir: Option<String>,
        git_dir_bytes: Option<Vec<u8>>,
        git_dir_names: NameText,
        head: Option<String>,
    },
    /// There is no `.git`: whether the anchor itself looks like a bare repository, and its
    /// `config` file.
    Plain { marker: bool, config: Option<String> },
}

/// Anchor facts as the contracts see them.
pub enum AnchorFactsView {
    GitFile {
        git_dir: Option<Seq<char>>,
        git_dir_bytes: Option<Seq<u8>>,
        git_dir_names: NameText,
        marker: bool,
        config: Option<Seq<char>>,
        common: Option<Seq<char>>,
        common_bytes: Option<Seq<u8>>,
        common_names: NameText,
        head: Option<Seq<char>>,
    },
    GitDirectory {
        git_dir: Option<Seq<char>>,
        git_dir_bytes: Option<Seq<u8>>,
        git_dir_names: NameText,
        head: Option<Seq<char>>,
    },
    Plain { marker: bool, config: Option<Seq<char>> },
}

impl View for AnchorFacts {
    type V = AnchorFactsView;

    open spec fn view(&self) -> AnchorFactsView {
        match self {
            AnchorFacts::GitFile {
                git_dir,
                git_dir_bytes,
                git_dir_names,
                marker,
                config,
                common,
                common_bytes,
                common_names,
                head,
            } => AnchorFactsView::GitFile {
                git_dir: opt_text(*git_dir),
                git_dir_bytes: opt_bytes(*git_dir_bytes),
                git_dir_names: *git_dir_names,
                marker: *marker,
                config: opt_text(*config),
                common: opt_text(*common),
                common_bytes: opt_bytes(*common_bytes),
                common_names: *common_names,
                head: opt_text(*head),
            },
            AnchorFacts::GitDirectory { git_dir, git_dir_bytes, git_dir_names, head } =>
                AnchorFactsView::GitDirectory {
                git_dir: opt_text(*git_dir),
                git_dir_bytes: opt_bytes(*git_dir_bytes),
                git_dir_names: *git_dir_names,
                head: opt_text(*head),
            },
            AnchorFacts::Plain { marker, config } => AnchorFactsView::Plain {
                marker: *marker,
                config: opt_text(*config),
            },
        }
    }
}

/// The branch named by a `HEAD` file, if it was read.
pub open spec fn head_file_branch(head: Option<Seq<char>>) -> Option<Seq<char>> {
    match head {
        Some(h) => head_branch(h),
        None => None,
    }
}

/// What an anchor is: a bare repository when its Git directory looks bare and its configuration
/// does not say otherwise; else a checkout of its common directory, linked when its own Git
/// directory is another one; nothing when `.git` names nothing. `bytes` and `names` are the
/// anchor's bytes (when not valid UTF-8) and which of its last names are valid Unicode.
pub open spec fn inspected(
    anchor: Seq<char>,
    bytes: Option<Seq<u8>>,
    names: NameText,
    facts: AnchorFactsView,
) -> Option<RepositoryView> {
    match facts {
        AnchorFactsView::GitFile {
            git_dir,
            git_dir_bytes,
            git_dir_names,
            marker,
            config,
            common,
            common_bytes,
            common_names,
            head,
        } => match git_dir {
            None => None,
            Some(g) => if marker && config_is_bare(config) {
                Some(
                    RepositoryView::Bare(
                        BareView {
                            common: g,
                            common_bytes: git_dir_bytes,
                            common_names: git_dir_names,
                            path: anchor,
                            path_bytes: bytes,
                        },
                    ),
                )
            } else {
                let (c, cb, cn) = match common {
                    Some(c) => (c, common_bytes, common_names),
                    None => (g, git_dir_bytes, git_dir_names),
                };
                Some(
                    RepositoryView::Checkout(
                        CheckoutView {
                            repo: c,
                            repo_name: repo_display_name(c, cn),
                            worktree: anchor,
                            worktree_bytes: bytes,
                            name_is_text: names.name,
                            branch: head_file_branch(head),
                            linked: !path_eq(path_id(g, git_dir_bytes), path_id(c, cb)),
                        },
                    ),
                )
            },
        },
        AnchorFactsView::GitDirectory { git_dir, git_dir_bytes, git_dir_names, head } => match git_dir {
            None => None,
            Some(g) => Some(
                RepositoryView::Checkout(
                    CheckoutView {
                        repo: g,
                        repo_name: repo_display_name(g, git_dir_names),
                        worktree: anchor,
                        worktree_bytes: bytes,
                        name_is_text: names.name,
                        branch: head_file_branch(head),
                        linked: false,
                    },
                ),
            ),
        },
        AnchorFactsView::Plain { marker, config } => if marker && config_is_bare(config) {
            Some(
                RepositoryView::Bare(
                    BareView {
                        common: anchor,
                        common_bytes: bytes,
                        common_names: names,
                        path: anchor,
                        path_bytes: bytes,
                    },
                ),
            )
        } else {
            None
        },
    }
}

fn opt_as_str(o: &Option<String>) -> (r: Option<&str>)
    ensures
        opt_str_text(r) == opt_text(*o),
{
    match o {
        Some(s) => Some(s.as_str()),
        None => None,
    }
}

fn head_file_branch_of(head: &Option<String>) -> (r: Option<String>)
    ensures
        opt_text(r) == head_file_branch(opt_text(*head)),
{
    match head {
        Some(h) => branch_of_head(h.as_str()),
        None => None,
    }
}

/// The picker entry an anchor stands for (see `inspected`).
pub fn inspect(anchor: String, bytes: Option<Vec<u8>>, names: NameText, facts: AnchorFacts) -> (r:
    Option<Repository>)
    ensures
        match (r, inspected(anchor@, opt_bytes(bytes), names, facts@)) {
            (Some(a), Some(b)) => a@ == b,
            (None, None) => true,
            _ => false,
        },
{
    match facts {
        AnchorFacts::GitFile {
            git_dir,
            git_dir_bytes,
            git_dir_names,
            marker,
            config,
            common,
            common_bytes,
            common_names,
            head,
        } => {
            let g = match git_dir {
                Some(g) => g,
                None => return None,
            };
            if marker && is_bare(opt_as_str(&config)) {
                return Some(
                    Repository::Bare(
                        BareRepository {
                            common: g,
                            common_bytes: git_dir_bytes,
                            common_names: git_dir_names,
                            path: anchor,
                            path_bytes: bytes,
                        },
                    ),
                );
            }
            let (c, cb, cn) = match common {
                Some(c) => (c, common_bytes, common_names),
                None => (g.clone(), clone_bytes(&git_dir_bytes), git_dir_names),
            };
            let gid = path_identity(g.as_str(), &git_dir_bytes);
            let cid = path_identity(c.as_str(), &cb);
            let linked = !paths_equal(gid.as_str(), cid.as_str());
            let repo_name = display_name(c.as_str(), cn);
            let branch = head_file_branch_of(&head);
            Some(
                Repository::Checkout(
                    Checkout {
                        repo: c,
                        repo_name,
                        worktree: anchor,
                        worktree_bytes: bytes,
                        name_is_text: names.name,
                        branch,
                        linked,
                    },
                ),
            )
        },
        AnchorFacts::GitDirectory { git_dir, git_dir_bytes, git_dir_names, head } => {
            let g = match git_dir {
                Some(g) => g,
                None => return None,
            };
            let _ = git_dir_bytes;
            let repo_name = display_name(g.as_str(), git_dir_names);
            let branch = head_file_branch_of(&head);
            Some(
                Repository::Checkout(
                    Checkout {
                        repo: g,
                        repo_name,
                        worktree: anchor,
                        worktree_bytes: bytes,
                        name_is_text: names.name,
                        branch,
                        linked: false,
                    },
                ),
            )
        },
        AnchorFacts::Plain { marker, config } => {
            if marker && is_bare(opt_as_str(&config)) {
                let common = anchor.clone();
                let common_bytes = clone_bytes(&bytes);
                Some(
                    Repository::Bare(
                        BareRepository {
                            common,
                            common_bytes,
                            common_names: names,
                            path: anchor,
                            path_bytes: bytes,
                        },
                    ),
                )
            } else {
                None
            }
        },
    }
}


/// Views of picker entries.
pub open spec fn repository_views(v: Seq<Repository>) -> Seq<RepositoryView> {
    v.map_values(|r: Repository| r@)
}

/// The identity by which discovery keeps one entry per repository: checkouts by their worktree,
/// bare repositories (after them) by their common directory.
pub open spec fn entry_key(r: RepositoryView) -> (bool, Seq<char>) {
    match r {
        RepositoryView::Checkout(c) => (false, worktree_id(c)),
        RepositoryView::Bare(b) => (true, common_id(b)),
    }
}

/// Order of entry identities: checkouts first, then by path as `Path`s are ordered.
pub open spec fn key_lt(a: (bool, Seq<char>), b: (bool, Seq<char>)) -> bool {
    (!a.0 && b.0) || (a.0 == b.0 && path_lt(a.1, b.1))
}

/// Two entries have the same identity.
pub open spec fn key_eq(a: (bool, Seq<char>), b: (bool, Seq<char>)) -> bool {
    a.0 == b.0 && path_eq(a.1, b.1)
}

/// The entry kept when `new` has the identity of `old`: a bare repository found at a smaller
/// path replaces the earlier one (a pointer container and its `.bare` directory are one
/// repository); otherwise the first entry stays.
pub open spec fn kept_entry(old: RepositoryView, new: RepositoryView) -> RepositoryView {
    match (old, new) {
        (RepositoryView::Bare(o), RepositoryView::Bare(n)) => if path_lt(
            bare_path_id(n),
            bare_path_id(o),
        ) {
            new
        } else {
            old
        },
        _ => old,
    }
}

/// The entries, ordered by identity, after `r` is found: inserted in order, or merged with the
/// entry of the same identity (see `kept_entry`).
pub open spec fn found_add(s: Seq<RepositoryView>, r: RepositoryView) -> Seq<RepositoryView>
    decreases s.len(),
{
    if s.len() == 0 {
        seq![r]
    } else if key_lt(entry_key(r), entry_key(s[0])) {
        seq![r] + s
    } else if key_eq(entry_key(r), entry_key(s[0])) {
        seq![kept_entry(s[0], r)] + s.drop_first()
    } else {
        seq![s[0]] + found_add(s.drop_first(), r)
    }
}

/// Plain-text labels of picker entries, the key they are shown in.
pub open spec fn repository_labels(v: Seq<RepositoryView>) -> Seq<Seq<char>> {
    v.map_values(|r: RepositoryView| repository_label(r, false))
}

/// `out` holds `inp` ordered by plain-text label, equal labels in their order in `inp`.
pub open spec fn repository_label_order(out: Seq<RepositoryView>, inp: Seq<RepositoryView>) -> bool {
    exists|perm: Seq<int>| #[trigger] stable_sorted_by_text(out, inp, repository_labels(inp), perm)
}

fn entry_path(r: &Repository) -> (p: String)
    ensures
        p@ == entry_key(r@).1,
{
    match r {
        Repository::Checkout(c) => path_identity(c.worktree.as_str(), &c.worktree_bytes),
        Repository::Bare(b) => path_identity(b.common.as_str(), &b.common_bytes),
    }
}

fn is_bare_entry(r: &Repository) -> (b: bool)
    ensures
        b == entry_key(r@).0,
{
    match r {
        Repository::Checkout(_) => false,
        Repository::Bare(_) => true,
    }
}

fn key_less(a: &Repository, b: &Repository) -> (r: bool)
    ensures
        r == key_lt(entry_key(a@), entry_key(b@)),
{
    let (x, y) = (is_bare_entry(a), is_bare_entry(b));
    (!x && y) || (x == y && path_less(entry_path(a).as_str(), entry_path(b).as_str()))
}

fn key_same(a: &Repository, b: &Repository) -> (r: bool)
    ensures
        r == key_eq(entry_key(a@), entry_key(b@)),
{
    is_bare_entry(a) == is_bare_entry(b) && paths_equal(
        entry_path(a).as_str(),
        entry_path(b).as_str(),
    )
}

/// Repositories found by discovery so far, one entry per identity, ordered by identity.
#[derive(Debug)]
pub struct Found {
    entries: Vec<Repository>,
}

impl View for Found {
    type V = Seq<RepositoryView>;

    closed spec fn view(&self) -> Seq<RepositoryView> {
        repository_views(self.entries@)
    }
}

impl Found {
    /// The entries are in identity order, one per identity (see `lemma_found_ordered_unique`).
    pub open spec fn wf(&self) -> bool {
        found_ordered(self@)
    }

    /// Nothing found yet.
    pub fn new() -> (r: Found)
        ensures
            r@.len() == 0,
            r.wf(),
    {
        let r = Found { entries: Vec::new() };
        assert(r@ =~= Seq::<RepositoryView>::empty());
        r
    }

    /// The entries found, in identity order.
    pub fn entries(&self) -> (r: &Vec<Repository>)
        ensures
            repository_views(r@) == self@,
    {
        &self.entries
    }

    /// Records a repository found at an anchor (see `found_add`); the entries stay in identity
    /// order.
    pub fn add(&mut self, r: Repository)
        requires
            old(self).wf(),
        ensures
            final(self)@ == found_add(old(self)@, r@),
            final(self).wf(),
    {
        proof {
            lemma_found_add_ordered(repository_views(self.entries@), r@);
        }
        let ghost s0 = repository_views(self.entries@);
        let ghost rv = r@;
        let n = self.entries.len();
        let mut i: usize = 0;
        assert(s0.take(0) + s0.skip(0) =~= s0);
        assert(s0.skip(0) =~= s0);
        while i < n && !key_less(&r, &self.entries[i]) && !key_same(&r, &self.entries[i])
            invariant
                i <= n == self.entries@.len(),
                s0 == repository_views(self.entries@),
                rv == r@,
                found_add(s0, rv) == s0.take(i as int) + found_add(s0.skip(i as int), rv),
            decreases n - i,
        {
            let ghost rest = s0.skip(i as int);
            assert(rest[0] == s0[i as int]);
            assert(rest.drop_first() =~= s0.skip(i + 1));
            assert(s0.take(i as int) + seq![s0[i as int]] =~= s0.take(i + 1));
            assert(s0.take(i as int) + (seq![s0[i as int]] + found_add(s0.skip(i + 1), rv))
                =~= s0.take(i + 1) + found_add(s0.skip(i + 1), rv));
            i = i + 1;
        }
        let ghost old_entries = self.entries@;
        if i == n {
            assert(s0.skip(i as int) =~= Seq::<RepositoryView>::empty());
            self.entries.push(r);
            assert(repository_views(self.entries@) =~= s0.take(i as int) + seq![rv]);
        } else if key_less(&r, &self.entries[i]) {
            assert(s0.skip(i as int)[0] == s0[i as int]);
            self.entries.insert(i, r);
            assert(repository_views(self.entries@) =~= s0.take(i as int) + (seq![rv] + s0.skip(
                i as int,
            )));
        } else {
            let ghost rest = s0.skip(i as int);
            assert(rest[0] == s0[i as int]);
            assert(rest.drop_first() =~= s0.skip(i + 1));
            let replace = match (&self.entries[i], &r) {
                (Repository::Bare(o), Repository::Bare(b)) => {
                    let new_path = path_identity(b.path.as_str(), &b.path_bytes);
                    let old_path = path_identity(o.path.as_str(), &o.path_bytes);
                    path_less(new_path.as_str(), old_path.as_str())
                },
                _ => false,
            };
            if replace {
                self.entries.set(i, r);
            }
            assert(repository_views(self.entries@) =~= s0.take(i as int) + (seq![
                kept_entry(s0[i as int], rv),
            ] + s0.skip(i + 1)));
        }
    }

    /// Takes what an examined directory is (`None` when it is no repository) and says whether
    /// discovery goes on into it: a repository found is recorded and not entered; any other
    /// directory is.
    pub fn examined(&mut self, r: Option<Repository>) -> (enter: bool)
        requires
            old(self).wf(),
        ensures
            enter == r is None,
            final(self).wf(),
            final(self)@ == match r {
                Some(x) => found_add(old(self)@, x@),
                None => old(self)@,
            },
    {
        match r {
            Some(x) => {
                self.add(x);
                false
            },
            None => true,
        }
    }

    /// The entries ordered by their plain-text labels (ties keep identity order), as the picker
    /// lists them.
    pub fn by_label(self) -> (r: Vec<Repository>)
        ensures
            repository_label_order(repository_views(r@), self@),
    {
        let entries = self.entries;
        let ghost inp = entries@;
        let ghost inv = repository_views(entries@);
        let mut keys: Vec<Vec<char>> = Vec::new();
        let mut i: usize = 0;
        while i < entries.len()
            invariant
                i <= entries@.len(),
                inp == entries@,
                inv == repository_views(entries@),
                char_views(keys@) == repository_labels(inv).take(i as int),
            decreases entries@.len() - i,
        {
            let key = chars_of(entries[i].label(false).as_str());
            let ghost old_keys = keys@;
            keys.push(key);
            assert(char_views(keys@) =~= char_views(old_keys).push(key@));
            assert(repository_labels(inv).take(i + 1) =~= repository_labels(inv).take(i as int).push(
                repository_label(inv[i as int], false),
            ));
            i = i + 1;
        }
        assert(repository_labels(inv).take(i as int) =~= repository_labels(inv));
        let sorted = sort_by_text(entries, keys);
        proof {
            let perm = choose|perm: Seq<int>|
                stable_sorted_by_text(sorted@, inp, repository_labels(inv), perm);
            assert(stable_sorted_by_text(repository_views(sorted@), inv, repository_labels(inv), perm))
                by {
                assert forall|k: int| 0 <= k < perm.len() implies #[trigger] repository_views(
                    sorted@,
                )[k] == inv[perm[k]] by {
                    assert(sorted@[k] == inp[perm[k]]);
                }
            }
        }
        sorted
    }
}


/// Finding a repository a second time (from another root, or through another path to the same
/// anchor) leaves the entries unchanged.
pub proof fn lemma_found_add_idempotent(s: Seq<RepositoryView>, r: RepositoryView)
    ensures
        found_add(found_add(s, r), r) == found_add(s, r),
    decreases s.len(),
{
    lemma_path_lt_irreflexive(entry_key(r).1);
    let once = found_add(s, r);
    if s.len() == 0 {
        assert(once.drop_first() =~= Seq::<RepositoryView>::empty());
    } else if key_lt(entry_key(r), entry_key(s[0])) {
        assert(once.drop_first() =~= s);
        if let RepositoryView::Bare(b) = r {
            lemma_path_lt_irreflexive(bare_path_id(b));
        }
    } else if key_eq(entry_key(r), entry_key(s[0])) {
        let k = kept_entry(s[0], r);
        assert(once[0] == k);
        assert(once.drop_first() =~= s.drop_first());
        if let RepositoryView::Bare(b) = r {
            lemma_path_lt_irreflexive(bare_path_id(b));
        }
        if k == r {
        } else {
            assert(key_eq(entry_key(r), entry_key(k)));
            assert(kept_entry(k, r) == k);
        }
    } else {
        lemma_found_add_idempotent(s.drop_first(), r);
        assert(once[0] == s[0]);
        assert(once.drop_first() =~= found_add(s.drop_first(), r));
    }
}


/// What discovery does with a directory entry.
#[derive(Debug, Clone, Copy, PartialEq, Eq, Structural)]
pub enum Visit {
    /// Do not go into this directory.
    SkipDir,
    /// Nothing to do with this entry; go on.
    Pass,
    /// See whether this directory is a repository; when it is, record it and do not go in.
    Examine,
}

/// What discovery does with an entry at `depth`, named `name` (absent when not UTF-8), whose
/// parent looks like a bare repository (`parent_bare`), a directory or not (`is_dir`): entries
/// it does not descend into are skipped (when directories) or passed; other directories are
/// examined; other files passed.
pub fn visit(depth: usize, name: Option<&str>, parent_bare: bool, is_dir: bool) -> (r: Visit)
    ensures
        r == (if !descends(depth as nat, opt_str_text(name), parent_bare) {
            if is_dir {
                Visit::SkipDir
            } else {
                Visit::Pass
            }
        } else if is_dir {
            Visit::Examine
        } else {
            Visit::Pass
        }),
{
    if !descend(depth, name, parent_bare) {
        if is_dir {
            Visit::SkipDir
        } else {
            Visit::Pass
        }
    } else if is_dir {
        Visit::Examine
    } else {
        Visit::Pass
    }
}

/// Whether a listed worktree must be resolved and probed: records of the bare repository itself
/// and prunable ones are dropped unseen.
pub fn needs_resolution(l: &Listed) -> (r: bool)
    ensures
        r == !(l.bare || l.prunable),
{
    !(l.bare || l.prunable)
}


/// A selected bare repository lists each worktree once.
pub proof fn lemma_worktrees_listed_once(
    bare: BareView,
    ls: Seq<ListedView>,
    rs: Seq<Option<(Seq<u8>, ProbeView)>>,
    k: int,
)
    ensures
        forall|i: int, j: int|
            0 <= i < j < collected_worktrees(bare, ls, rs, k).len() ==> !path_eq(
                worktree_id(#[trigger] collected_worktrees(bare, ls, rs, k)[i]),
                worktree_id(#[trigger] collected_worktrees(bare, ls, rs, k)[j]),
            ),
    decreases k,
{
    if k > 0 {
        lemma_worktrees_listed_once(bare, ls, rs, k - 1);
        let prev = collected_worktrees(bare, ls, rs, k - 1);
        let now = collected_worktrees(bare, ls, rs, k);
        assert forall|i: int, j: int| 0 <= i < j < now.len() implies !path_eq(
            worktree_id(#[trigger] now[i]),
            worktree_id(#[trigger] now[j]),
        ) by {
            assert(now[i] == prev[i]);
            if j < prev.len() {
                assert(now[j] == prev[j]);
            }
        }
    }
}


/// Entries in strictly increasing identity order: no identity occurs twice.
pub open spec fn found_ordered(s: Seq<RepositoryView>) -> bool {
    forall|i: int, j: int|
        0 <= i < j < s.len() ==> key_lt(entry_key(#[trigger] s[i]), entry_key(#[trigger] s[j]))
}

proof fn lemma_key_facts(a: (bool, Seq<char>), b: (bool, Seq<char>), c: (bool, Seq<char>))
    ensures
        !key_lt(a, a),
        key_lt(a, b) && key_lt(b, c) ==> key_lt(a, c),
        key_eq(a, b) || key_lt(a, b) || key_lt(b, a),
        key_eq(b, c) ==> (key_lt(a, b) == key_lt(a, c) && key_lt(b, a) == key_lt(c, a)),
        key_eq(a, b) ==> !key_lt(a, b),
{
    lemma_path_lt_irreflexive(a.1);
    if key_lt(a, b) && key_lt(b, c) && a.0 == b.0 && b.0 == c.0 {
        lemma_path_lt_transitive(a.1, b.1, c.1);
    }
    lemma_path_lt_total(a.1, b.1);
    if key_eq(b, c) {
        lemma_path_lt_respects_eq(a.1, b.1, c.1);
    }
    if key_eq(a, b) {
        lemma_path_lt_respects_eq(a.1, a.1, b.1);
    }
}

proof fn lemma_found_add_above(s: Seq<RepositoryView>, r: RepositoryView, low: (bool, Seq<char>))
    requires
        forall|j: int| 0 <= j < s.len() ==> key_lt(low, entry_key(#[trigger] s[j])),
        key_lt(low, entry_key(r)),
    ensures
        forall|j: int|
            0 <= j < found_add(s, r).len() ==> key_lt(low, entry_key(#[trigger] found_add(s, r)[j])),
    decreases s.len(),
{
    let out = found_add(s, r);
    if s.len() == 0 {
    } else if key_lt(entry_key(r), entry_key(s[0])) {
        assert forall|j: int| 0 <= j < out.len() implies key_lt(low, entry_key(#[trigger] out[j])) by {
            if j > 0 {
                assert(out[j] == s[j - 1]);
            }
        }
    } else if key_eq(entry_key(r), entry_key(s[0])) {
        assert forall|j: int| 0 <= j < out.len() implies key_lt(low, entry_key(#[trigger] out[j])) by {
            if j > 0 {
                assert(out[j] == s[j]);
            }
        }
    } else {
        let rest = s.drop_first();
        assert forall|j: int| 0 <= j < rest.len() implies key_lt(low, entry_key(#[trigger] rest[j])) by {
            assert(rest[j] == s[j + 1]);
        }
        lemma_found_add_above(rest, r, low);
        assert forall|j: int| 0 <= j < out.len() implies key_lt(low, entry_key(#[trigger] out[j])) by {
            if j > 0 {
                assert(out[j] == found_add(rest, r)[j - 1]);
            }
        }
    }
}

/// Finding a repository keeps the entries in identity order, so each identity stays listed
/// once.
pub proof fn lemma_found_add_ordered(s: Seq<RepositoryView>, r: RepositoryView)
    requires
        found_ordered(s),
    ensures
        found_ordered(found_add(s, r)),
    decreases s.len(),
{
    let out = found_add(s, r);
    if s.len() == 0 {
    } else if key_lt(entry_key(r), entry_key(s[0])) {
        assert forall|i: int, j: int| 0 <= i < j < out.len() implies key_lt(
            entry_key(#[trigger] out[i]),
            entry_key(#[trigger] out[j]),
        ) by {
            assert(out[j] == s[j - 1]);
            if i == 0 {
                if j > 1 {
                    lemma_key_facts(entry_key(r), entry_key(s[0]), entry_key(s[j - 1]));
                }
            } else {
                assert(out[i] == s[i - 1]);
            }
        }
    } else if key_eq(entry_key(r), entry_key(s[0])) {
        let k = kept_entry(s[0], r);
        assert(key_eq(entry_key(k), entry_key(s[0])));
        assert forall|i: int, j: int| 0 <= i < j < out.len() implies key_lt(
            entry_key(#[trigger] out[i]),
            entry_key(#[trigger] out[j]),
        ) by {
            assert(out[j] == s[j]);
            if i == 0 {
                lemma_key_facts(entry_key(s[j]), entry_key(s[0]), entry_key(k));
                assert(key_lt(entry_key(s[0]), entry_key(s[j])));
                lemma_key_facts(entry_key(s[j]), entry_key(k), entry_key(s[0]));
            } else {
                assert(out[i] == s[i]);
            }
        }
    } else {
        let rest = s.drop_first();
        lemma_key_facts(entry_key(r), entry_key(s[0]), entry_key(s[0]));
        assert(key_lt(entry_key(s[0]), entry_key(r)));
        assert(found_ordered(rest)) by {
            assert forall|i: int, j: int| 0 <= i < j < rest.len() implies key_lt(
                entry_key(#[trigger] rest[i]),
                entry_key(#[trigger] rest[j]),
            ) by {
                assert(rest[i] == s[i + 1]);
                assert(rest[j] == s[j + 1]);
            }
        }
        assert forall|j: int| 0 <= j < rest.len() implies key_lt(
            entry_key(s[0]),
            entry_key(#[trigger] rest[j]),
        ) by {
            assert(rest[j] == s[j + 1]);
        }
        lemma_found_add_ordered(rest, r);
        lemma_found_add_above(rest, r, entry_key(s[0]));
        let tail = found_add(rest, r);
        assert forall|i: int, j: int| 0 <= i < j < out.len() implies key_lt(
            entry_key(#[trigger] out[i]),
            entry_key(#[trigger] out[j]),
        ) by {
            assert(out[j] == tail[j - 1]);
            if i > 0 {
                assert(out[i] == tail[i - 1]);
            }
        }
    }
}

/// Entries in identity order never share an identity.
pub proof fn lemma_found_ordered_unique(s: Seq<RepositoryView>)
    requires
        found_ordered(s),
    ensures
        forall|i: int, j: int|
            0 <= i < j < s.len() ==> !key_eq(entry_key(#[trigger] s[i]), entry_key(#[trigger] s[j])),
{
    assert forall|i: int, j: int| 0 <= i < j < s.len() implies !key_eq(
        entry_key(#[trigger] s[i]),
        entry_key(#[trigger] s[j]),
    ) by {
        lemma_key_facts(entry_key(s[i]), entry_key(s[j]), entry_key(s[j]));
    }
}

proof fn lemma_key_eq_equivalence(a: (bool, Seq<char>), b: (bool, Seq<char>), c: (bool, Seq<char>))
    ensures
        key_eq(a, a),
        key_eq(a, b) ==> key_eq(b, a),
        key_eq(a, b) && key_eq(b, c) ==> key_eq(a, c),
{
    crate::path::lemma_path_eq_parts(a.1, a.1);
    crate::path::lemma_path_eq_parts(a.1, b.1);
    crate::path::lemma_path_eq_parts(b.1, a.1);
    crate::path::lemma_path_eq_parts(b.1, c.1);
    crate::path::lemma_path_eq_parts(a.1, c.1);
}

/// Entries that may share an identity agree on which of them stays, whichever comes first (as a
/// repository found twice does).
pub open spec fn agree(a: RepositoryView, b: RepositoryView) -> bool {
    key_eq(entry_key(a), entry_key(b)) ==> kept_entry(a, b) == kept_entry(b, a)
}

proof fn lemma_kept_commutes(x: RepositoryView, a: RepositoryView, b: RepositoryView)
    requires
        key_eq(entry_key(x), entry_key(a)),
        key_eq(entry_key(x), entry_key(b)),
        agree(a, b),
    ensures
        kept_entry(kept_entry(x, a), b) == kept_entry(kept_entry(x, b), a),
{
    lemma_key_eq_equivalence(entry_key(a), entry_key(x), entry_key(b));
    lemma_key_eq_equivalence(entry_key(x), entry_key(a), entry_key(b));
    if let (RepositoryView::Bare(xb), RepositoryView::Bare(ab), RepositoryView::Bare(bb)) = (x, a, b) {
        let (xp, ap, bp) = (bare_path_id(xb), bare_path_id(ab), bare_path_id(bb));
        if path_lt(bp, ap) && path_lt(ap, xp) {
            lemma_path_lt_transitive(bp, ap, xp);
        }
        if path_lt(ap, bp) && path_lt(bp, xp) {
            lemma_path_lt_transitive(ap, bp, xp);
        }
    }
}

/// The entries found do not depend on the order in which repositories are found: adding two
/// entries in either order gives the same entries, when entries of one identity agree on which
/// of them stays. With `lemma_found_add_idempotent` (finding one again changes nothing), the
/// order and repetition of search roots leave discovery's entries unchanged.
pub proof fn lemma_found_add_commutes(s: Seq<RepositoryView>, a: RepositoryView, b: RepositoryView)
    requires
        found_ordered(s),
        agree(a, b),
    ensures
        found_add(found_add(s, a), b) == found_add(found_add(s, b), a),
    decreases s.len(),
{
    let ka = entry_key(a);
    let kb = entry_key(b);
    lemma_key_facts(ka, kb, kb);
    lemma_key_facts(kb, ka, ka);
    lemma_key_facts(ka, kb, ka);
    lemma_key_facts(kb, ka, kb);
    lemma_key_eq_equivalence(ka, kb, kb);
    lemma_key_eq_equivalence(kb, ka, ka);
    if s.len() == 0 {
        let l = found_add(seq![a], b);
        let r = found_add(seq![b], a);
        assert(seq![a].drop_first() =~= Seq::<RepositoryView>::empty());
        assert(seq![b].drop_first() =~= Seq::<RepositoryView>::empty());
        assert(found_add(Seq::<RepositoryView>::empty(), a) == seq![a]);
        assert(found_add(Seq::<RepositoryView>::empty(), b) == seq![b]);
        if key_lt(kb, ka) {
            assert(l =~= seq![b, a]);
            assert(r =~= seq![b, a]);
        } else if key_eq(kb, ka) {
            assert(l =~= seq![kept_entry(a, b)]);
            assert(r =~= seq![kept_entry(b, a)]);
        } else {
            assert(l =~= seq![a, b]);
            assert(r =~= seq![a, b]);
        }
    } else {
        let x = s[0];
        let k0 = entry_key(x);
        let rest = s.drop_first();
        assert(found_ordered(rest)) by {
            assert forall|i: int, j: int| 0 <= i < j < rest.len() implies key_lt(
                entry_key(#[trigger] rest[i]),
                entry_key(#[trigger] rest[j]),
            ) by {
                assert(rest[i] == s[i + 1]);
                assert(rest[j] == s[j + 1]);
            }
        }
        lemma_key_facts(ka, k0, kb);
        lemma_key_facts(kb, k0, ka);
        lemma_key_facts(k0, ka, kb);
        lemma_key_facts(k0, kb, ka);
        lemma_key_facts(ka, kb, k0);
        lemma_key_facts(kb, ka, k0);
        lemma_key_eq_equivalence(ka, k0, kb);
        lemma_key_eq_equivalence(kb, k0, ka);
        lemma_key_eq_equivalence(k0, ka, kb);
        let sa = found_add(s, a);
        let sb = found_add(s, b);
        if key_lt(ka, k0) && key_lt(kb, k0) {
            assert(sa =~= seq![a] + s);
            assert(sb =~= seq![b] + s);
            assert((seq![a] + s).drop_first() =~= s);
            assert((seq![b] + s).drop_first() =~= s);
            if key_lt(kb, ka) {
                assert(found_add(sa, b) =~= seq![b] + sa);
                assert(found_add(s, a) == sa);
                assert(found_add(sb, a) =~= seq![b] + found_add(s, a));
                assert(seq![b] + sa =~= seq![b] + (seq![a] + s));
            } else if key_eq(kb, ka) {
                assert(found_add(sa, b) =~= seq![kept_entry(a, b)] + s);
                assert(found_add(sb, a) =~= seq![kept_entry(b, a)] + s);
            } else {
                assert(found_add(sa, b) =~= seq![a] + found_add(s, b));
                assert(found_add(sb, a) =~= seq![a] + sb);
            }
        } else if key_lt(ka, k0) && key_eq(kb, k0) {
            let kx = kept_entry(x, b);
            lemma_key_facts(ka, entry_key(kx), k0);
            lemma_key_eq_equivalence(entry_key(kx), k0, kb);
            assert(sa =~= seq![a] + s);
            assert((seq![a] + s).drop_first() =~= s);
            assert(sb =~= seq![kx] + rest);
            assert(found_add(sa, b) =~= seq![a] + sb);
            assert((seq![kx] + rest)[0] == kx);
            assert(found_add(sb, a) =~= seq![a] + sb);
        } else if key_eq(ka, k0) && key_lt(kb, k0) {
            let kx = kept_entry(x, a);
            lemma_key_facts(kb, entry_key(kx), k0);
            lemma_key_eq_equivalence(entry_key(kx), k0, ka);
            assert(sb =~= seq![b] + s);
            assert((seq![b] + s).drop_first() =~= s);
            assert(sa =~= seq![kx] + rest);
            assert(found_add(sb, a) =~= seq![b] + sa);
            assert((seq![kx] + rest)[0] == kx);
            assert(found_add(sa, b) =~= seq![b] + sa);
        } else if key_lt(ka, k0) {
            // b lies beyond the first entry.
            assert(key_lt(k0, kb));
            assert(sa =~= seq![a] + s);
            assert((seq![a] + s).drop_first() =~= s);
            assert(sb =~= seq![x] + found_add(rest, b));
            assert(found_add(sa, b) =~= seq![a] + sb);
            assert((seq![x] + found_add(rest, b))[0] == x);
            assert(found_add(sb, a) =~= seq![a] + sb);
        } else if key_lt(kb, k0) {
            assert(key_lt(k0, ka));
            assert(sb =~= seq![b] + s);
            assert((seq![b] + s).drop_first() =~= s);
            assert(sa =~= seq![x] + found_add(rest, a));
            assert(found_add(sb, a) =~= seq![b] + sa);
            assert((seq![x] + found_add(rest, a))[0] == x);
            assert(found_add(sa, b) =~= seq![b] + sa);
        } else if key_eq(ka, k0) && key_eq(kb, k0) {
            let xa = kept_entry(x, a);
            let xb = kept_entry(x, b);
            lemma_key_eq_equivalence(entry_key(xa), k0, kb);
            lemma_key_eq_equivalence(entry_key(xb), k0, ka);
            lemma_key_facts(kb, entry_key(xa), k0);
            lemma_key_facts(ka, entry_key(xb), k0);
            lemma_key_facts(entry_key(xa), kb, kb);
            lemma_key_facts(entry_key(xb), ka, ka);
            assert(sa =~= seq![xa] + rest);
            assert(sb =~= seq![xb] + rest);
            assert((seq![xa] + rest)[0] == xa);
            assert((seq![xb] + rest)[0] == xb);
            assert((seq![xa] + rest).drop_first() =~= rest);
            assert((seq![xb] + rest).drop_first() =~= rest);
            lemma_kept_commutes(x, a, b);
            assert(found_add(sa, b) =~= seq![kept_entry(xa, b)] + rest);
            assert(found_add(sb, a) =~= seq![kept_entry(xb, a)] + rest);
        } else if key_eq(ka, k0) {
            assert(key_lt(k0, kb));
            let xa = kept_entry(x, a);
            lemma_key_eq_equivalence(entry_key(xa), k0, ka);
            lemma_key_facts(kb, entry_key(xa), k0);
            lemma_key_facts(entry_key(xa), kb, k0);
            assert(sa =~= seq![xa] + rest);
            assert((seq![xa] + rest)[0] == xa);
            assert((seq![xa] + rest).drop_first() =~= rest);
            assert(sb =~= seq![x] + found_add(rest, b));
            assert((seq![x] + found_add(rest, b))[0] == x);
            assert((seq![x] + found_add(rest, b)).drop_first() =~= found_add(rest, b));
            assert(found_add(sa, b) =~= seq![xa] + found_add(rest, b));
            assert(found_add(sb, a) =~= seq![xa] + found_add(rest, b));
        } else if key_eq(kb, k0) {
            assert(key_lt(k0, ka));
            let xb = kept_entry(x, b);
            lemma_key_eq_equivalence(entry_key(xb), k0, kb);
            lemma_key_facts(ka, entry_key(xb), k0);
            lemma_key_facts(entry_key(xb), ka, k0);
            assert(sb =~= seq![xb] + rest);
            assert((seq![xb] + rest)[0] == xb);
            assert((seq![xb] + rest).drop_first() =~= rest);
            assert(sa =~= seq![x] + found_add(rest, a));
            assert((seq![x] + found_add(rest, a))[0] == x);
            assert((seq![x] + found_add(rest, a)).drop_first() =~= found_add(rest, a));
            assert(found_add(sb, a) =~= seq![xb] + found_add(rest, a));
            assert(found_add(sa, b) =~= seq![xb] + found_add(rest, a));
        } else {
            assert(key_lt(k0, ka) && key_lt(k0, kb));
            assert(sa =~= seq![x] + found_add(rest, a));
            assert(sb =~= seq![x] + found_add(rest, b));
            assert((seq![x] + found_add(rest, a))[0] == x);
            assert((seq![x] + found_add(rest, b))[0] == x);
            assert((seq![x] + found_add(rest, a)).drop_first() =~= found_add(rest, a));
            assert((seq![x] + found_add(rest, b)).drop_first() =~= found_add(rest, b));
            lemma_found_add_commutes(rest, a, b);
            assert(found_add(sa, b) =~= seq![x] + found_add(found_add(rest, a), b));
            assert(found_add(sb, a) =~= seq![x] + found_add(found_add(rest, b), a));
        }
    }
}

/// The entries after finding each of `rs` in turn, starting from `s`.
pub open spec fn found_all(s: Seq<RepositoryView>, rs: Seq<RepositoryView>) -> Seq<RepositoryView>
    decreases rs.len(),
{
    if rs.len() == 0 {
        s
    } else {
        found_all(found_add(s, rs[0]), rs.drop_first())
    }
}

/// Every two of `rs` agree on which of them stays (see `agree`).
pub open spec fn all_agree(rs: Seq<RepositoryView>) -> bool {
    forall|i: int, j: int| 0 <= i < rs.len() && 0 <= j < rs.len() ==> agree(#[trigger] rs[i], #[trigger] rs[j])
}

proof fn lemma_agree_symmetric(a: RepositoryView, b: RepositoryView)
    requires
        agree(a, b),
    ensures
        agree(b, a),
{
    lemma_key_eq_equivalence(entry_key(a), entry_key(b), entry_key(b));
    lemma_key_eq_equivalence(entry_key(b), entry_key(a), entry_key(a));
}

proof fn lemma_found_all_ordered(s: Seq<RepositoryView>, rs: Seq<RepositoryView>)
    requires
        found_ordered(s),
    ensures
        found_ordered(found_all(s, rs)),
    decreases rs.len(),
{
    if rs.len() > 0 {
        lemma_found_add_ordered(s, rs[0]);
        lemma_found_all_ordered(found_add(s, rs[0]), rs.drop_first());
    }
}

proof fn lemma_found_all_concat(s: Seq<RepositoryView>, p: Seq<RepositoryView>, q: Seq<RepositoryView>)
    ensures
        found_all(s, p + q) == found_all(found_all(s, p), q),
    decreases p.len(),
{
    if p.len() == 0 {
        assert(p + q =~= q);
    } else {
        assert((p + q)[0] == p[0]);
        assert((p + q).drop_first() =~= p.drop_first() + q);
        lemma_found_all_concat(found_add(s, p[0]), p.drop_first(), q);
    }
}

proof fn lemma_found_all_one(s: Seq<RepositoryView>, x: RepositoryView)
    ensures
        found_all(s, seq![x]) == found_add(s, x),
{
    assert(seq![x].drop_first() =~= Seq::<RepositoryView>::empty());
    assert(seq![x][0] == x);
    assert(found_all(found_add(s, x), Seq::<RepositoryView>::empty()) == found_add(s, x));
}

/// Finding `x` after all of `b` is finding it before them, when it agrees with each of them.
proof fn lemma_found_add_past(t: Seq<RepositoryView>, b: Seq<RepositoryView>, x: RepositoryView)
    requires
        found_ordered(t),
        forall|i: int| 0 <= i < b.len() ==> agree(x, #[trigger] b[i]),
    ensures
        found_add(found_all(t, b), x) == found_all(found_add(t, x), b),
    decreases b.len(),
{
    if b.len() > 0 {
        let b0 = b[0];
        let rest = b.drop_first();
        lemma_found_add_ordered(t, b0);
        assert forall|i: int| 0 <= i < rest.len() implies agree(x, #[trigger] rest[i]) by {
            assert(rest[i] == b[i + 1]);
        }
        lemma_found_add_past(found_add(t, b0), rest, x);
        lemma_agree_symmetric(x, b0);
        lemma_found_add_commutes(t, b0, x);
    }
}

/// Two batches of findings give the same entries in either order, when each finding of one
/// agrees with each of the other.
proof fn lemma_found_all_swap(t: Seq<RepositoryView>, a: Seq<RepositoryView>, b: Seq<RepositoryView>)
    requires
        found_ordered(t),
        forall|i: int, j: int| 0 <= i < a.len() && 0 <= j < b.len() ==> agree(#[trigger] a[i], #[trigger] b[j]),
    ensures
        found_all(t, a + b) == found_all(t, b + a),
    decreases a.len(),
{
    if a.len() == 0 {
        assert(a + b =~= b);
        assert(b + a =~= b);
    } else {
        let x = a[0];
        let rest = a.drop_first();
        let tx = found_add(t, x);
        lemma_found_add_ordered(t, x);
        assert forall|i: int, j: int| 0 <= i < rest.len() && 0 <= j < b.len() implies agree(
            #[trigger] rest[i],
            #[trigger] b[j],
        ) by {
            assert(rest[i] == a[i + 1]);
        }
        lemma_found_all_swap(tx, rest, b);
        assert((a + b)[0] == x);
        assert((a + b).drop_first() =~= rest + b);
        // found_all(t, a + b) == found_all(tx, b + rest)
        lemma_found_all_concat(tx, b, rest);
        assert forall|j: int| 0 <= j < b.len() implies agree(x, #[trigger] b[j]) by {
            assert(a[0] == x);
        }
        lemma_found_add_past(t, b, x);
        // found_all(tx, b) == found_add(found_all(t, b), x)
        assert(a =~= seq![x] + rest);
        assert(b + a =~= (b + seq![x]) + rest);
        lemma_found_all_concat(t, b + seq![x], rest);
        lemma_found_all_concat(t, b, seq![x]);
        lemma_found_all_one(found_all(t, b), x);
    }
}

/// Finding again one of the repositories already found changes nothing.
proof fn lemma_found_again(t: Seq<RepositoryView>, rs: Seq<RepositoryView>, k: int)
    requires
        found_ordered(t),
        0 <= k < rs.len(),
        forall|j: int| 0 <= j < rs.len() ==> agree(rs[k], #[trigger] rs[j]),
    ensures
        found_add(found_all(t, rs), rs[k]) == found_all(t, rs),
{
    let x = rs[k];
    let p = rs.take(k);
    let q = rs.skip(k + 1);
    assert(rs =~= p + (seq![x] + q));
    lemma_found_all_concat(t, p, seq![x] + q);
    let fp = found_all(t, p);
    assert((seq![x] + q)[0] == x);
    assert((seq![x] + q).drop_first() =~= q);
    let fx = found_add(fp, x);
    lemma_found_all_ordered(t, p);
    lemma_found_add_ordered(fp, x);
    assert forall|i: int| 0 <= i < q.len() implies agree(x, #[trigger] q[i]) by {
        assert(q[i] == rs[k + 1 + i]);
    }
    lemma_found_add_past(fx, q, x);
    lemma_found_add_idempotent(fp, x);
}

proof fn lemma_found_all_absorbs(t: Seq<RepositoryView>, a: Seq<RepositoryView>, b: Seq<RepositoryView>)
    requires
        found_ordered(t),
        all_agree(a),
        forall|i: int| 0 <= i < b.len() ==> a.contains(#[trigger] b[i]),
    ensures
        found_all(t, a + b) == found_all(t, a),
    decreases b.len(),
{
    if b.len() == 0 {
        assert(a + b =~= a);
    } else {
        let rest = b.drop_last();
        let y = b.last();
        assert forall|i: int| 0 <= i < rest.len() implies a.contains(#[trigger] rest[i]) by {
            assert(rest[i] == b[i]);
        }
        lemma_found_all_absorbs(t, a, rest);
        assert(a + b =~= (a + rest) + seq![y]);
        lemma_found_all_concat(t, a + rest, seq![y]);
        lemma_found_all_one(found_all(t, a + rest), y);
        assert(a.contains(b[b.len() - 1]));
        let k = choose|k: int| 0 <= k < a.len() && a[k] == y;
        lemma_found_again(t, a, k);
    }
}

/// Discovery's entries do not depend on the order in which repositories are found, nor on how
/// often each is found: finding the same repositories (`rs1` and `rs2` hold the same ones, in
/// any order and with any repetition) gives the same entries, when entries of one identity
/// agree on which of them stays, as a repository found twice does. This is what lets search
/// roots be given in any order, and repeated.
pub proof fn lemma_found_all_order_free(rs1: Seq<RepositoryView>, rs2: Seq<RepositoryView>)
    requires
        all_agree(rs1),
        forall|i: int| 0 <= i < rs2.len() ==> rs1.contains(#[trigger] rs2[i]),
        forall|i: int| 0 <= i < rs1.len() ==> rs2.contains(#[trigger] rs1[i]),
    ensures
        found_all(seq![], rs1) == found_all(seq![], rs2),
{
    let t = Seq::<RepositoryView>::empty();
    assert(found_ordered(t));
    assert(all_agree(rs2)) by {
        assert forall|i: int, j: int| 0 <= i < rs2.len() && 0 <= j < rs2.len() implies agree(
            #[trigger] rs2[i],
            #[trigger] rs2[j],
        ) by {
            assert(rs1.contains(rs2[i]));
            assert(rs1.contains(rs2[j]));
        }
    }
    assert forall|i: int, j: int| 0 <= i < rs1.len() && 0 <= j < rs2.len() implies agree(
        #[trigger] rs1[i],
        #[trigger] rs2[j],
    ) by {
        assert(rs1.contains(rs2[j]));
    }
    lemma_found_all_absorbs(t, rs1, rs2);
    lemma_found_all_swap(t, rs1, rs2);
    lemma_found_all_absorbs(t, rs2, rs1);
}

} // verus!
