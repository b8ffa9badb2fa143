//! Fixed words that appear in labels and commands.
use vstd::prelude::*;

use vstd::slice::slice_to_vec;

verus! {

/// `branch:`, the plain-text branch marker.
pub open spec fn branch_word() -> Seq<char> {
    seq!['b', 'r', 'a', 'n', 'c', 'h', ':']
}

/// The Nerd Font branch glyph.
pub open spec fn branch_glyph() -> Seq<char> {
    seq!['\u{e0a0}']
}

/// What precedes a branch name: the glyph, or `branch:` in plain text.
pub open spec fn branch_marker(nerd_fonts: bool) -> Seq<char> {
    if nerd_fonts {
        branch_glyph()
    } else {
        branch_word()
    }
}

/// The branch marker (see `branch_marker`).
pub fn branch_marker_chars(nerd_fonts: bool) -> (r: Vec<char>)
    ensures
        r@ == branch_marker(nerd_fonts),
{
    if nerd_fonts {
        let a = ['\u{e0a0}'];
        assert(a@ =~= branch_glyph());
        slice_to_vec(&a)
    } else {
        let a = ['b', 'r', 'a', 'n', 'c', 'h', ':'];
        assert(a@ =~= branch_word());
        slice_to_vec(&a)
    }
}

/// The Nerd Font glyph for a bare repository.
pub open spec fn bare_glyph() -> Seq<char> {
    seq!['\u{f418}']
}

/// `[bare]`, the plain-text marker of a bare repository.
pub open spec fn bare_word() -> Seq<char> {
    seq!['[', 'b', 'a', 'r', 'e', ']']
}

/// Marker of a bare repository in the picker: the glyph, or `[bare]` in plain text.
pub open spec fn bare_marker(nerd_fonts: bool) -> Seq<char> {
    if nerd_fonts {
        bare_glyph()
    } else {
        bare_word()
    }
}

/// The bare-repository marker (see `bare_marker`).
pub fn bare_marker_chars(nerd_fonts: bool) -> (r: Vec<char>)
    ensures
        r@ == bare_marker(nerd_fonts),
{
    if nerd_fonts {
        let a = ['\u{f418}'];
        assert(a@ =~= bare_glyph());
        slice_to_vec(&a)
    } else {
        let a = ['[', 'b', 'a', 'r', 'e', ']'];
        assert(a@ =~= bare_word());
        slice_to_vec(&a)
    }
}

/// `detached`, shown for a worktree on no branch.
pub open spec fn detached_word() -> Seq<char> {
    seq!['d', 'e', 't', 'a', 'c', 'h', 'e', 'd']
}

/// `detached`.
pub fn detached_chars() -> (r: Vec<char>)
    ensures
        r@ == detached_word(),
{
    let a = ['d', 'e', 't', 'a', 'c', 'h', 'e', 'd'];
    assert(a@ =~= detached_word());
    slice_to_vec(&a)
}

/// `worktree`, the name of a worktree whose path names none.
pub open spec fn worktree_word() -> Seq<char> {
    seq!['w', 'o', 'r', 'k', 't', 'r', 'e', 'e']
}

/// `worktree`.
pub fn worktree_chars() -> (r: Vec<char>)
    ensures
        r@ == worktree_word(),
{
    let a = ['w', 'o', 'r', 'k', 't', 'r', 'e', 'e'];
    assert(a@ =~= worktree_word());
    slice_to_vec(&a)
}

/// `repository`, the name of a repository whose path names none.
pub open spec fn repository_word() -> Seq<char> {
    seq!['r', 'e', 'p', 'o', 's', 'i', 't', 'o', 'r', 'y']
}

/// `repository`.
pub fn repository_chars() -> (r: Vec<char>)
    ensures
        r@ == repository_word(),
{
    let a = ['r', 'e', 'p', 'o', 's', 'i', 't', 'o', 'r', 'y'];
    assert(a@ =~= repository_word());
    slice_to_vec(&a)
}

/// `.git`.
pub open spec fn dot_git() -> Seq<char> {
    seq!['.', 'g', 'i', 't']
}

/// `.git`.
pub fn dot_git_chars() -> (r: Vec<char>)
    ensures
        r@ == dot_git(),
{
    let a = ['.', 'g', 'i', 't'];
    assert(a@ =~= dot_git());
    slice_to_vec(&a)
}

/// `.bare`, the usual name of a bare repository inside a worktree container.
pub open spec fn dot_bare() -> Seq<char> {
    seq!['.', 'b', 'a', 'r', 'e']
}

/// `.bare`.
pub fn dot_bare_chars() -> (r: Vec<char>)
    ensures
        r@ == dot_bare(),
{
    let a = ['.', 'b', 'a', 'r', 'e'];
    assert(a@ =~= dot_bare());
    slice_to_vec(&a)
}

/// Two spaces, the gap between label parts.
pub open spec fn gap() -> Seq<char> {
    seq![' ', ' ']
}

} // verus!
