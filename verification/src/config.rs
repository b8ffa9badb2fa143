//! Configuration: layouts, default sessions, and the rules a configuration must follow.
use vstd::prelude::*;

use crate::path::{is_absolute, join, join_path};
use crate::text::{
    char_is_control, chars_of, clone_strings, has_char, is_control, string_of, texts,
};

verus! {

/// One pane: the literal argv it runs (empty for a shell).
#[derive(Debug)]
pub struct Pane {
    pub command: Vec<String>,
}

/// A named window and its panes.
#[derive(Debug)]
pub struct Window {
    pub name: String,
    pub panes: Vec<Pane>,
}

/// A named layout offered after a checkout is chosen.
#[derive(Debug)]
pub struct Preset {
    pub name: String,
    pub windows: Vec<Window>,
}

/// A session that `grove refresh` creates in a fixed directory.
#[derive(Debug)]
pub struct DefaultSession {
    pub name: String,
    pub cwd: String,
    pub windows: Vec<Window>,
}

/// The whole configuration; paths are held as text.
#[derive(Debug)]
pub struct Config {
    pub roots: Vec<String>,
    pub max_depth: usize,
    pub nerd_fonts: bool,
    pub presets: Vec<Preset>,
    pub defaults: Vec<DefaultSession>,
}

/// A pane as the contracts see it.
pub struct PaneView {
    pub command: Seq<Seq<char>>,
}

/// A window as the contracts see it.
pub struct WindowView {
    pub name: Seq<char>,
    pub panes: Seq<PaneView>,
}

/// A layout as the contracts see it.
pub struct PresetView {
    pub name: Seq<char>,
    pub windows: Seq<WindowView>,
}

/// A default session as the contracts see it.
pub struct DefaultSessionView {
    pub name: Seq<char>,
    pub cwd: Seq<char>,
    pub windows: Seq<WindowView>,
}

/// A configuration as the contracts see it.
pub struct ConfigView {
    pub roots: Seq<Seq<char>>,
    pub max_depth: usize,
    pub nerd_fonts: bool,
    pub presets: Seq<PresetView>,
    pub defaults: Seq<DefaultSessionView>,
}

/// Views of panes.
pub open spec fn pane_views(v: Seq<Pane>) -> Seq<PaneView> {
    v.map_values(|p: Pane| p@)
}

/// Views of windows.
pub open spec fn window_views(v: Seq<Window>) -> Seq<WindowView> {
    v.map_values(|w: Window| w@)
}

/// Views of layouts.
pub open spec fn preset_views(v: Seq<Preset>) -> Seq<PresetView> {
    v.map_values(|p: Preset| p@)
}

/// Views of default sessions.
pub open spec fn default_views(v: Seq<DefaultSession>) -> Seq<DefaultSessionView> {
    v.map_values(|d: DefaultSession| d@)
}

impl View for Pane {
    type V = PaneView;

    open spec fn view(&self) -> PaneView {
        PaneView { command: texts(self.command@) }
    }
}

impl View for Window {
    type V = WindowView;

    open spec fn view(&self) -> WindowView {
        WindowView { name: self.name@, panes: pane_views(self.panes@) }
    }
}

impl View for Preset {
    type V = PresetView;

    open spec fn view(&self) -> PresetView {
        PresetView { name: self.name@, windows: window_views(self.windows@) }
    }
}

impl View for DefaultSession {
    type V = DefaultSessionView;

    open spec fn view(&self) -> DefaultSessionView {
        DefaultSessionView {
            name: self.name@,
            cwd: self.cwd@,
            windows: window_views(self.windows@),
        }
    }
}

impl View for Config {
    type V = ConfigView;

    open spec fn view(&self) -> ConfigView {
        ConfigView {
            roots: texts(self.roots@),
            max_depth: self.max_depth,
            nerd_fonts: self.nerd_fonts,
            presets: preset_views(self.presets@),
            defaults: default_views(self.defaults@),
        }
    }
}

impl Clone for Pane {
    fn clone(&self) -> (r: Self)
        ensures
            r@ == self@,
    {
        Pane { command: clone_strings(&self.command) }
    }
}

/// A copy of panes.
pub fn clone_panes(v: &Vec<Pane>) -> (r: Vec<Pane>)
    ensures
        pane_views(r@) == pane_views(v@),
{
    let mut r: Vec<Pane> = Vec::new();
    let mut i: usize = 0;
    while i < v.len()
        invariant
            i <= v@.len(),
            r@.len() == i,
            forall|k: int| 0 <= k < i ==> #[trigger] r@[k]@ == v@[k]@,
        decreases v@.len() - i,
    {
        r.push(v[i].clone());
        i = i + 1;
    }
    assert(pane_views(r@) =~= pane_views(v@));
    r
}

impl Clone for Window {
    fn clone(&self) -> (r: Self)
        ensures
            r@ == self@,
    {
        Window { name: self.name.clone(), panes: clone_panes(&self.panes) }
    }
}

/// A copy of windows.
pub fn clone_windows(v: &Vec<Window>) -> (r: Vec<Window>)
    ensures
        window_views(r@) == window_views(v@),
{
    let mut r: Vec<Window> = Vec::new();
    let mut i: usize = 0;
    while i < v.len()
        invariant
            i <= v@.len(),
            r@.len() == i,
            forall|k: int| 0 <= k < i ==> #[trigger] r@[k]@ == v@[k]@,
        decreases v@.len() - i,
    {
        r.push(v[i].clone());
        i = i + 1;
    }
    assert(window_views(r@) =~= window_views(v@));
    r
}

impl Clone for Preset {
    fn clone(&self) -> (r: Self)
        ensures
            r@ == self@,
    {
        Preset { name: self.name.clone(), windows: clone_windows(&self.windows) }
    }
}

/// A copy of layouts.
pub fn clone_presets(v: &Vec<Preset>) -> (r: Vec<Preset>)
    ensures
        preset_views(r@) == preset_views(v@),
{
    let mut r: Vec<Preset> = Vec::new();
    let mut i: usize = 0;
    while i < v.len()
        invariant
            i <= v@.len(),
            r@.len() == i,
            forall|k: int| 0 <= k < i ==> #[trigger] r@[k]@ == v@[k]@,
        decreases v@.len() - i,
    {
        r.push(v[i].clone());
        i = i + 1;
    }
    assert(preset_views(r@) =~= preset_views(v@));
    r
}

/// The name, window and layout of the built-in layout.
pub open spec fn shell_text() -> Seq<char> {
    seq!['s', 'h', 'e', 'l', 'l']
}

fn shell_string() -> (r: String)
    ensures
        r@ == shell_text(),
{
    let cs = ['s', 'h', 'e', 'l', 'l'];
    assert(cs@ =~= shell_text());
    string_of(&cs)
}

/// The built-in layout: one window named `shell` with a shell pane.
pub open spec fn shell_layout() -> PresetView {
    PresetView {
        name: shell_text(),
        windows: seq![WindowView { name: shell_text(), panes: seq![] }],
    }
}

impl Preset {
    /// The built-in layout (see `shell_layout`).
    pub fn shell() -> (r: Self)
        ensures
            r@ == shell_layout(),
    {
        let window = Window { name: shell_string(), panes: Vec::new() };
        let mut windows: Vec<Window> = Vec::new();
        windows.push(window);
        let r = Preset { name: shell_string(), windows };
        assert(pane_views(r.windows@[0].panes@) =~= Seq::<PaneView>::empty());
        assert(window_views(r.windows@) =~= shell_layout().windows);
        r
    }
}

/// Search depth used when the configuration does not set one.
pub const DEFAULT_DEPTH: usize = 3;

impl Default for Config {
    fn default() -> (r: Self)
        ensures
            r@.roots.len() == 0,
            r@.max_depth == DEFAULT_DEPTH,
            r@.nerd_fonts,
            r@.presets.len() == 0,
            r@.defaults.len() == 0,
    {
        Config {
            roots: Vec::new(),
            max_depth: DEFAULT_DEPTH,
            nerd_fonts: true,
            presets: Vec::new(),
            defaults: Vec::new(),
        }
    }
}

/// Whether glyphs are shown: the configured choice, or the default (on) when no configuration
/// file exists.
pub fn optional_nerd_fonts(config: Option<&Config>) -> (r: bool)
    ensures
        r == match config {
            Some(c) => c.nerd_fonts,
            None => true,
        },
{
    match config {
        Some(c) => c.nerd_fonts,
        None => true,
    }
}

/// `grove/config.toml`, the file's place under the configuration directory.
pub open spec fn config_suffix() -> Seq<char> {
    seq!['g', 'r', 'o', 'v', 'e', '/', 'c', 'o', 'n', 'f', 'i', 'g', '.', 't', 'o', 'm', 'l']
}

/// `.config`, the configuration directory under the home directory.
pub open spec fn dot_config() -> Seq<char> {
    seq!['.', 'c', 'o', 'n', 'f', 'i', 'g']
}

/// Where the configuration is read from, given `GROVE_CONFIG`, `XDG_CONFIG_HOME` and `HOME`.
pub open spec fn config_path_spec(
    grove_config: Option<Seq<char>>,
    xdg: Option<Seq<char>>,
    home: Option<Seq<char>>,
) -> Seq<char> {
    match grove_config {
        Some(g) if g.len() > 0 => g,
        _ => {
            let base = match xdg {
                Some(x) => x,
                None => match home {
                    Some(h) => join(h, dot_config()),
                    None => seq!['.'],
                },
            };
            join(base, config_suffix())
        },
    }
}

/// The configuration file: `GROVE_CONFIG` when it is set and not empty; otherwise
/// `grove/config.toml` under `XDG_CONFIG_HOME`, else under `HOME/.config`, else under `.`.
pub fn config_path_from(
    grove_config: Option<String>,
    xdg: Option<String>,
    home: Option<String>,
) -> (r: String)
    ensures
        r@ == config_path_spec(opt_view(grove_config), opt_view(xdg), opt_view(home)),
{
    if let Some(g) = grove_config {
        if !g.as_str().is_empty() {
            return g;
        }
    }
    let dot_config_chars = ['.', 'c', 'o', 'n', 'f', 'i', 'g'];
    assert(dot_config_chars@ =~= dot_config());
    let suffix_chars = [
        'g', 'r', 'o', 'v', 'e', '/', 'c', 'o', 'n', 'f', 'i', 'g', '.', 't', 'o', 'm', 'l',
    ];
    assert(suffix_chars@ =~= config_suffix());
    let base = match xdg {
        Some(x) => x,
        None => match home {
            Some(h) => join_path(h.as_str(), string_of(&dot_config_chars).as_str()),
            None => {
                let dot = ['.'];
                assert(dot@ =~= seq!['.']);
                string_of(&dot)
            },
        },
    };
    join_path(base.as_str(), string_of(&suffix_chars).as_str())
}

/// The text of an optional string.
pub open spec fn opt_view(o: Option<String>) -> Option<Seq<char>> {
    match o {
        Some(s) => Some(s@),
        None => None,
    }
}

/// The message that explains a rule.
pub open spec fn config_error_text(e: ConfigError) -> Seq<char> {
    match e {
        ConfigError::RelativeRoot => "configuration roots must be absolute paths"@,
        ConfigError::ZeroDepth => "max_depth must be at least 1"@,
        ConfigError::BadPresetName => "preset names must be non-empty and contain no tabs, newlines, or NULs"@,
        ConfigError::DuplicatePreset => "preset names must be unique"@,
        ConfigError::BadDefaultName => "default names must be non-empty and contain no periods, colons, or control characters"@,
        ConfigError::DuplicateDefault => "default names must be unique"@,
        ConfigError::BadDefaultCwd => "default cwd must be an absolute existing directory"@,
        ConfigError::BadWindowName => "window names must be non-empty and contain no NULs"@,
        ConfigError::EmptyExecutable => "pane executable must not be empty"@,
    }
}

/// A rule that a configuration breaks.
#[derive(Debug, Clone, Copy, PartialEq, Eq, Structural)]
pub enum ConfigError {
    RelativeRoot,
    ZeroDepth,
    BadPresetName,
    DuplicatePreset,
    BadDefaultName,
    DuplicateDefault,
    BadDefaultCwd,
    BadWindowName,
    EmptyExecutable,
}

impl ConfigError {
    /// The message that explains the rule.
    pub fn message(&self) -> (r: String)
        ensures
            r@ == config_error_text(*self),
    {
        match self {
            ConfigError::RelativeRoot => String::from_str(
                "configuration roots must be absolute paths",
            ),
            ConfigError::ZeroDepth => String::from_str("max_depth must be at least 1"),
            ConfigError::BadPresetName => String::from_str(
                "preset names must be non-empty and contain no tabs, newlines, or NULs",
            ),
            ConfigError::DuplicatePreset => String::from_str("preset names must be unique"),
            ConfigError::BadDefaultName => String::from_str(
                "default names must be non-empty and contain no periods, colons, or control characters",
            ),
            ConfigError::DuplicateDefault => String::from_str("default names must be unique"),
            ConfigError::BadDefaultCwd => String::from_str(
                "default cwd must be an absolute existing directory",
            ),
            ConfigError::BadWindowName => String::from_str(
                "window names must be non-empty and contain no NULs",
            ),
            ConfigError::EmptyExecutable => String::from_str("pane executable must not be empty"),
        }
    }
}

/// The first error of a sequence of checks made in order.
pub open spec fn first_error(errs: Seq<Option<ConfigError>>) -> Option<ConfigError>
    decreases errs.len(),
{
    if errs.len() == 0 {
        None
    } else if errs[0] is Some {
        errs[0]
    } else {
        first_error(errs.drop_first())
    }
}

/// Checks that all pass before position `i` leave the first error to the checks from `i` on.
pub proof fn lemma_first_error(errs: Seq<Option<ConfigError>>, i: int)
    requires
        0 <= i <= errs.len(),
        forall|k: int| 0 <= k < i ==> errs[k] is None,
    ensures
        first_error(errs) == first_error(errs.skip(i)),
    decreases i,
{
    if i > 0 {
        assert(errs.drop_first().skip(i - 1) =~= errs.skip(i));
        lemma_first_error(errs.drop_first(), i - 1);
    } else {
        assert(errs.skip(0) =~= errs);
    }
}

/// A sequence of checks with one failing among them has a first error.
proof fn lemma_failure_found(errs: Seq<Option<ConfigError>>, k: int)
    requires
        0 <= k < errs.len(),
        errs[k] is Some,
    ensures
        first_error(errs) is Some,
    decreases k,
{
    if errs[0] is None {
        assert(errs.drop_first()[k - 1] == errs[k]);
        lemma_failure_found(errs.drop_first(), k - 1);
    }
}

/// Default session names are unique: a configuration in which two defaults, at any positions
/// `j < i`, share a name is refused. When no rule checked before that name fails (the roots are
/// absolute, the depth is not zero, every preset and every default before `i` passes, and the name
/// of default `i` is well formed), it is refused with `DuplicateDefault`.
pub proof fn lemma_duplicate_default_refused(c: ConfigView, dirs: Seq<bool>, j: int, i: int)
    requires
        0 <= j < i < c.defaults.len(),
        c.defaults[j].name == c.defaults[i].name,
    ensures
        config_error(c, dirs) is Some,
        (forall|k: int| 0 <= k < c.roots.len() ==> is_absolute(#[trigger] c.roots[k])) && c.max_depth
            != 0 && (forall|p: int| 0 <= p < c.presets.len() ==> #[trigger] preset_error(c.presets, p) is None)
            && (forall|k: int| 0 <= k < i ==> #[trigger] default_error(c.defaults, dirs, k) is None)
            && c.defaults[i].name.len() > 0 && !c.defaults[i].name.contains('.')
            && !c.defaults[i].name.contains(':') && (forall|k: int|
            0 <= k < c.defaults[i].name.len() ==> !is_control(#[trigger] c.defaults[i].name[k]))
            ==> config_error(c, dirs) == Some(ConfigError::DuplicateDefault),
{
    let perrs = Seq::new(c.presets.len(), |p: int| preset_error(c.presets, p));
    let derrs = Seq::new(c.defaults.len(), |k: int| default_error(c.defaults, dirs, k));
    assert(c.defaults[j].name == c.defaults[i].name);
    assert(derrs[i] is Some);
    lemma_failure_found(derrs, i);
    if (forall|p: int| 0 <= p < c.presets.len() ==> #[trigger] preset_error(c.presets, p) is None) {
        assert forall|p: int| 0 <= p < perrs.len() implies #[trigger] perrs[p] is None by {
            assert(perrs[p] == preset_error(c.presets, p));
        }
        lemma_first_error(perrs, perrs.len() as int);
        assert(perrs.skip(perrs.len() as int).len() == 0);
    }
    if (forall|k: int| 0 <= k < i ==> #[trigger] default_error(c.defaults, dirs, k) is None) {
        assert forall|k: int| 0 <= k < i implies #[trigger] derrs[k] is None by {
            assert(derrs[k] == default_error(c.defaults, dirs, k));
        }
        lemma_first_error(derrs, i);
        assert(derrs.skip(i)[0] == derrs[i]);
    }
}

/// A window needs a non-empty name without NUL, and no pane may run an empty executable.
pub open spec fn window_error(w: WindowView) -> Option<ConfigError> {
    if w.name.len() == 0 || w.name.contains('\0') {
        Some(ConfigError::BadWindowName)
    } else if exists|k: int|
        0 <= k < w.panes.len() && w.panes[k].command.len() > 0 && #[trigger] w.panes[k].command[0].len()
            == 0 {
        Some(ConfigError::EmptyExecutable)
    } else {
        None
    }
}

/// The first broken rule among `windows`, in order.
pub open spec fn windows_error(windows: Seq<WindowView>) -> Option<ConfigError> {
    first_error(Seq::new(windows.len(), |k: int| window_error(windows[k])))
}

/// A preset needs a non-empty name without tab, newline or NUL, not used by an earlier preset.
pub open spec fn preset_error(presets: Seq<PresetView>, i: int) -> Option<ConfigError> {
    let p = presets[i];
    if p.name.len() == 0 || p.name.contains('\t') || p.name.contains('\n') || p.name.contains(
        '\0',
    ) {
        Some(ConfigError::BadPresetName)
    } else if exists|j: int| 0 <= j < i && #[trigger] presets[j].name == p.name {
        Some(ConfigError::DuplicatePreset)
    } else {
        windows_error(p.windows)
    }
}

/// A default session needs a non-empty name without `.`, `:` or control characters, not used by
/// an earlier default, and an absolute working directory that exists (`dirs[i]`).
pub open spec fn default_error(
    defaults: Seq<DefaultSessionView>,
    dirs: Seq<bool>,
    i: int,
) -> Option<ConfigError> {
    let d = defaults[i];
    if d.name.len() == 0 || d.name.contains('.') || d.name.contains(':') || exists|k: int|
        0 <= k < d.name.len() && is_control(#[trigger] d.name[k]) {
        Some(ConfigError::BadDefaultName)
    } else if exists|j: int| 0 <= j < i && #[trigger] defaults[j].name == d.name {
        Some(ConfigError::DuplicateDefault)
    } else if !is_absolute(d.cwd) || !dirs[i] {
        Some(ConfigError::BadDefaultCwd)
    } else {
        windows_error(d.windows)
    }
}

/// The first rule `c` breaks: roots, depth, then each preset, then each default, in order.
pub open spec fn config_error(c: ConfigView, dirs: Seq<bool>) -> Option<ConfigError> {
    if exists|k: int| 0 <= k < c.roots.len() && !is_absolute(#[trigger] c.roots[k]) {
        Some(ConfigError::RelativeRoot)
    } else if c.max_depth == 0 {
        Some(ConfigError::ZeroDepth)
    } else {
        match first_error(Seq::new(c.presets.len(), |i: int| preset_error(c.presets, i))) {
            Some(e) => Some(e),
            None => first_error(
                Seq::new(c.defaults.len(), |i: int| default_error(c.defaults, dirs, i)),
            ),
        }
    }
}

#[verifier::loop_isolation(false)]
fn window_check(w: &Window) -> (r: Option<ConfigError>)
    ensures
        r == window_error(w@),
{
    let name = chars_of(w.name.as_str());
    if name.len() == 0 || has_char(name.as_slice(), '\0') {
        return Some(ConfigError::BadWindowName);
    }
    let mut k: usize = 0;
    while k < w.panes.len()
        invariant
            k <= w.panes@.len(),
            forall|m: int|
                0 <= m < k ==> !(w@.panes[m].command.len() > 0 && #[trigger] w@.panes[m].command[0].len()
                    == 0),
        decreases w.panes@.len() - k,
    {
        let command = &w.panes[k].command;
        assert(w@.panes[k as int] == w.panes@[k as int]@);
        if command.len() > 0 && command[0].as_str().is_empty() {
            assert(w@.panes[k as int].command[0] == command@[0]@);
            assert(w@.panes[k as int].command.len() > 0 && w@.panes[k as int].command[0].len() == 0);
            return Some(ConfigError::EmptyExecutable);
        }
        proof {
            if command@.len() > 0 {
                assert(w@.panes[k as int].command[0] == command@[0]@);
            }
        }
        k = k + 1;
    }
    None
}

/// Checks windows in order and reports the first rule broken.
pub fn validate_windows(windows: &Vec<Window>) -> (r: Result<(), ConfigError>)
    ensures
        r == match windows_error(window_views(windows@)) {
            Some(e) => Err(e),
            None => Ok::<(), ConfigError>(()),
        },
{
    let ghost errs = Seq::new(windows@.len(), |k: int| window_error(window_views(windows@)[k]));
    let mut i: usize = 0;
    while i < windows.len()
        invariant
            i <= windows@.len(),
            errs == Seq::new(windows@.len(), |k: int| window_error(window_views(windows@)[k])),
            forall|k: int| 0 <= k < i ==> errs[k] is None,
        decreases windows@.len() - i,
    {
        let e = window_check(&windows[i]);
        assert(errs[i as int] == e);
        if let Some(e) = e {
            proof {
                lemma_first_error(errs, i as int);
            }
            return Err(e);
        }
        i = i + 1;
    }
    proof {
        lemma_first_error(errs, i as int);
    }
    Ok(())
}

fn bad_preset_name(name: &String) -> (r: bool)
    ensures
        r == (name@.len() == 0 || name@.contains('\t') || name@.contains('\n') || name@.contains(
            '\0',
        )),
{
    let cs = chars_of(name.as_str());
    cs.len() == 0 || has_char(cs.as_slice(), '\t') || has_char(cs.as_slice(), '\n') || has_char(
        cs.as_slice(),
        '\0',
    )
}

fn bad_default_name(name: &String) -> (r: bool)
    ensures
        r == (name@.len() == 0 || name@.contains('.') || name@.contains(':') || exists|k: int|
            0 <= k < name@.len() && is_control(#[trigger] name@[k])),
{
    let cs = chars_of(name.as_str());
    if cs.len() == 0 || has_char(cs.as_slice(), '.') || has_char(cs.as_slice(), ':') {
        return true;
    }
    let mut k: usize = 0;
    while k < cs.len()
        invariant
            k <= cs@.len(),
            cs@ == name@,
            forall|m: int| 0 <= m < k ==> !is_control(#[trigger] cs@[m]),
        decreases cs@.len() - k,
    {
        if char_is_control(cs[k]) {
            return true;
        }
        k = k + 1;
    }
    false
}

#[verifier::loop_isolation(false)]
fn preset_check(presets: &Vec<Preset>, i: usize) -> (r: Option<ConfigError>)
    requires
        i < presets@.len(),
    ensures
        r == preset_error(preset_views(presets@), i as int),
{
    let ghost ps = preset_views(presets@);
    let p = &presets[i];
    assert(ps[i as int] == p@);
    if bad_preset_name(&p.name) {
        return Some(ConfigError::BadPresetName);
    }
    let mut j: usize = 0;
    while j < i
        invariant
            j <= i < presets@.len(),
            ps == preset_views(presets@),
            ps[i as int].name == presets@[i as int].name@,
            forall|m: int| 0 <= m < j ==> #[trigger] ps[m].name != ps[i as int].name,
        decreases i - j,
    {
        assert(ps[j as int].name == presets@[j as int].name@);
        if presets[j].name == presets[i].name {
            assert(ps[j as int].name == ps[i as int].name);
            return Some(ConfigError::DuplicatePreset);
        }
        j = j + 1;
    }
    match validate_windows(&p.windows) {
        Ok(()) => None,
        Err(e) => Some(e),
    }
}

#[verifier::loop_isolation(false)]
fn default_check(defaults: &Vec<DefaultSession>, dirs: &Vec<bool>, i: usize) -> (r: Option<
    ConfigError,
>)
    requires
        i < defaults@.len(),
        dirs@.len() == defaults@.len(),
    ensures
        r == default_error(default_views(defaults@), dirs@, i as int),
{
    let ghost ds = default_views(defaults@);
    let d = &defaults[i];
    assert(ds[i as int] == d@);
    if bad_default_name(&d.name) {
        return Some(ConfigError::BadDefaultName);
    }
    let mut j: usize = 0;
    while j < i
        invariant
            j <= i < defaults@.len(),
            ds == default_views(defaults@),
            ds[i as int].name == defaults@[i as int].name@,
            forall|m: int| 0 <= m < j ==> #[trigger] ds[m].name != ds[i as int].name,
        decreases i - j,
    {
        assert(ds[j as int].name == defaults@[j as int].name@);
        if defaults[j].name == defaults[i].name {
            assert(ds[j as int].name == ds[i as int].name);
            return Some(ConfigError::DuplicateDefault);
        }
        j = j + 1;
    }
    let cwd = chars_of(d.cwd.as_str());
    if !(cwd.len() > 0 && cwd[0] == '/') || !dirs[i] {
        return Some(ConfigError::BadDefaultCwd);
    }
    match validate_windows(&d.windows) {
        Ok(()) => None,
        Err(e) => Some(e),
    }
}

/// Checks a configuration against its rules in order and hands it back when it follows them
/// all. `dirs[i]` tells whether the working directory of default `i` is an existing directory.
pub fn validate(config: Config, dirs: &Vec<bool>) -> (r: Result<Config, ConfigError>)
    requires
        dirs@.len() == config.defaults@.len(),
    ensures
        match r {
            Ok(c) => c@ == config@ && config_error(config@, dirs@) is None,
            Err(e) => config_error(config@, dirs@) == Some(e),
        },
{
    let mut k: usize = 0;
    while k < config.roots.len()
        invariant
            k <= config.roots@.len(),
            forall|m: int| 0 <= m < k ==> is_absolute(#[trigger] config@.roots[m]),
        decreases config.roots@.len() - k,
    {
        let root = chars_of(config.roots[k].as_str());
        assert(config@.roots[k as int] == config.roots@[k as int]@);
        if !(root.len() > 0 && root[0] == '/') {
            return Err(ConfigError::RelativeRoot);
        }
        k = k + 1;
    }
    if config.max_depth == 0 {
        return Err(ConfigError::ZeroDepth);
    }
    let ghost perrs = Seq::new(
        config@.presets.len(),
        |i: int| preset_error(config@.presets, i),
    );
    let mut i: usize = 0;
    while i < config.presets.len()
        invariant
            i <= config.presets@.len(),
            config.max_depth != 0,
            forall|m: int| 0 <= m < config@.roots.len() ==> is_absolute(#[trigger] config@.roots[m]),
            perrs == Seq::new(config@.presets.len(), |i: int| preset_error(config@.presets, i)),
            forall|m: int| 0 <= m < i ==> perrs[m] is None,
        decreases config.presets@.len() - i,
    {
        let e = preset_check(&config.presets, i);
        if let Some(e) = e {
            proof {
                lemma_first_error(perrs, i as int);
            }
            return Err(e);
        }
        i = i + 1;
    }
    proof {
        lemma_first_error(perrs, i as int);
    }
    let ghost derrs = Seq::new(
        config@.defaults.len(),
        |i: int| default_error(config@.defaults, dirs@, i),
    );
    let mut i: usize = 0;
    while i < config.defaults.len()
        invariant
            i <= config.defaults@.len(),
            dirs@.len() == config.defaults@.len(),
            config.max_depth != 0,
            forall|m: int| 0 <= m < config@.roots.len() ==> is_absolute(#[trigger] config@.roots[m]),
            first_error(perrs) is None,
            perrs == Seq::new(config@.presets.len(), |i: int| preset_error(config@.presets, i)),
            derrs == Seq::new(
                config@.defaults.len(),
                |i: int| default_error(config@.defaults, dirs@, i),
            ),
            forall|m: int| 0 <= m < i ==> derrs[m] is None,
        decreases config.defaults@.len() - i,
    {
        let e = default_check(&config.defaults, dirs, i);
        if let Some(e) = e {
            proof {
                lemma_first_error(derrs, i as int);
            }
            return Err(e);
        }
        i = i + 1;
    }
    proof {
        lemma_first_error(derrs, i as int);
    }
    Ok(config)
}

} // verus!
