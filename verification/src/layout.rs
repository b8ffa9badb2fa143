//! Choosing the layout of a new session.
use vstd::prelude::*;

use crate::config::{preset_views, shell_layout, Config, Preset, PresetView};
use crate::picker::choice_views;
use crate::text::{decimal, decimal_string, opt_str_text, parse_unsigned, parse_usize};

verus! {

/// The layouts offered: `0` for the built-in shell layout, then each preset by its position
/// counted from 1.
pub open spec fn layout_choice_views(presets: Seq<PresetView>) -> Seq<(Seq<char>, Seq<char>)> {
    seq![("0"@, "shell (one shell window)"@)] + Seq::new(
        presets.len(),
        |i: int| (decimal((i + 1) as nat), presets[i].name),
    )
}

/// The picker entries for choosing among `presets` (see `layout_choice_views`).
pub fn preset_choices(presets: &Vec<Preset>) -> (r: Vec<(String, String)>)
    ensures
        choice_views(r@) == layout_choice_views(preset_views(presets@)),
{
    let ghost want = layout_choice_views(preset_views(presets@));
    let mut r: Vec<(String, String)> = Vec::new();
    r.push((String::from_str("0"), String::from_str("shell (one shell window)")));
    let mut i: usize = 0;
    while i < presets.len()
        invariant
            i <= presets@.len(),
            want == layout_choice_views(preset_views(presets@)),
            want.len() == presets@.len() + 1,
            choice_views(r@) == want.take(i + 1),
        decreases presets@.len() - i,
    {
        let id = decimal_string(i + 1);
        let ghost before = r@;
        r.push((id, presets[i].name.clone()));
        assert(preset_views(presets@)[i as int] == presets@[i as int]@);
        assert(choice_views(r@) =~= choice_views(before).push(want[i + 1]));
        assert(want.take(i + 2) =~= want.take(i + 1).push(want[i + 1]));
        i = i + 1;
    }
    assert(want.take(i + 1) =~= want);
    r
}

/// The picker entries for choosing a layout of `config`.
pub fn layout_choices(config: &Config) -> (r: Vec<(String, String)>)
    ensures
        choice_views(r@) == layout_choice_views(config@.presets),
{
    preset_choices(&config.presets)
}

/// Why a picked layout id names no layout.
#[derive(Debug, Clone, Copy, PartialEq, Eq, Structural)]
pub enum LayoutError {
    /// The id is not a number.
    Invalid,
    /// The number is no layout's.
    Unknown,
}

/// The message of a layout that the picker did not name.
pub open spec fn layout_error_text(e: LayoutError) -> Seq<char> {
    match e {
        LayoutError::Invalid => "fzf selected an invalid layout"@,
        LayoutError::Unknown => "fzf selected an unknown layout"@,
    }
}

impl LayoutError {
    /// The message that explains the failure.
    pub fn message(&self) -> (r: String)
        ensures
            r@ == layout_error_text(*self),
    {
        match self {
            LayoutError::Invalid => String::from_str("fzf selected an invalid layout"),
            LayoutError::Unknown => String::from_str("fzf selected an unknown layout"),
        }
    }
}

/// The layout that the picker's answer `picked` names among the built-in shell layout and
/// `presets`: none when nothing was picked, the shell layout for `0`, else the preset at that
/// position counted from 1.
pub open spec fn chosen_layout(presets: Seq<PresetView>, picked: Option<Seq<char>>) -> Result<
    Option<PresetView>,
    LayoutError,
> {
    match picked {
        None => Ok(None),
        Some(id) => match parse_unsigned(id, usize::MAX as nat) {
            Err(_) => Err(LayoutError::Invalid),
            Ok(n) => if n == 0 {
                Ok(Some(shell_layout()))
            } else if n <= presets.len() {
                Ok(Some(presets[n - 1]))
            } else {
                Err(LayoutError::Unknown)
            },
        },
    }
}

/// The layout named by `picked` among the shell layout and `presets` (see `chosen_layout`).
pub fn select_preset(presets: &Vec<Preset>, picked: Option<&str>) -> (r: Result<
    Option<Preset>,
    LayoutError,
>)
    ensures
        match (r, chosen_layout(preset_views(presets@), opt_str_text(picked))) {
            (Ok(Some(a)), Ok(Some(b))) => a@ == b,
            (Ok(None), Ok(None)) => true,
            (Err(a), Err(b)) => a == b,
            _ => false,
        },
{
    let id = match picked {
        None => return Ok(None),
        Some(id) => id,
    };
    match parse_usize(id) {
        Err(_) => Err(LayoutError::Invalid),
        Ok(0) => Ok(Some(Preset::shell())),
        Ok(n) => if n - 1 < presets.len() {
            assert(preset_views(presets@)[n - 1] == presets@[n - 1]@);
            Ok(Some(presets[n - 1].clone()))
        } else {
            Err(LayoutError::Unknown)
        },
    }
}

/// The layout that the picker's answer `picked` names (see `chosen_layout`).
pub fn select_layout(config: &Config, picked: Option<&str>) -> (r: Result<Option<Preset>, LayoutError>)
    ensures
        match (r, chosen_layout(config@.presets, opt_str_text(picked))) {
            (Ok(Some(a)), Ok(Some(b))) => a@ == b,
            (Ok(None), Ok(None)) => true,
            (Err(a), Err(b)) => a == b,
            _ => false,
        },
{
    select_preset(&config.presets, picked)
}

} // verus!
