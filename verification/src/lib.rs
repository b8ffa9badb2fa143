//! Grove finds Git checkouts, lets the user pick one, and opens or reuses an independent tmux
//! session for it. This crate holds its decisions: discovery, naming, picker rows, layouts, the
//! tmux commands and the steps of opening, switching, closing and refreshing sessions.
use vstd::prelude::*;

pub mod config;
pub mod external;
pub mod git;
pub mod layout;
pub mod naming;
pub mod opening;
pub mod path;
pub mod picker;
pub mod probing;
pub mod refresh;
pub mod seqs;
pub mod sort;
pub mod switching;
pub mod text;
pub mod tmux;
pub mod words;

use crate::git::branch_label_text;
use crate::text::{push_str, string_of};
use crate::words::branch_marker_chars;

pub use crate::layout::select_layout;
pub use crate::naming::session_name;
pub use crate::switching::switch;

verus! {

/// A branch column: marker, space and branch name, or empty without a branch.
pub fn branch_label(branch: Option<&str>, nerd_fonts: bool) -> (r: String)
    ensures
        r@ == branch_label_text(
            match branch {
                Some(b) => Some(b@),
                None => None,
            },
            nerd_fonts,
        ),
{
    match branch {
        Some(b) => {
            let mut out = branch_marker_chars(nerd_fonts);
            out.push(' ');
            push_str(&mut out, b);
            string_of(out.as_slice())
        },
        None => String::new(),
    }
}

} // verus!
