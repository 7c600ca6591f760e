//! Studio workspace values: dock tabs, settings sections, project listing
//! modes, catalog hits and the small text helpers of the studio panels.

use vstd::prelude::*;
use vstd::string::StringExecFns;
use vstd::string::StringSliceAdditionalSpecFns;

verus! {

/// A dockable panel of the studio.
#[derive(Clone, Copy, Debug, PartialEq, Eq)]
pub enum StudioTab {
    Canvas,
    Build,
    DesignManager,
    Bom,
    Messages,
    Research,
    Viewer3d,
    Console,
    Settings,
    Agent,
}

/// Title of a dock panel.
pub open spec fn studio_tab_label(t: StudioTab) -> Seq<char> {
    match t {
        StudioTab::Canvas => "Schematic"@,
        StudioTab::Build => "Build"@,
        StudioTab::DesignManager => "Design"@,
        StudioTab::Bom => "BOM"@,
        StudioTab::Messages => "Messages"@,
        StudioTab::Research => "Research"@,
        StudioTab::Viewer3d => "Preview"@,
        StudioTab::Console => "Console"@,
        StudioTab::Settings => "Settings"@,
        StudioTab::Agent => "Agent"@,
    }
}

impl StudioTab {
    /// Every dock panel, in menu order.
    pub const DOCK_TABS: [StudioTab; 10] = [
        StudioTab::Canvas,
        StudioTab::Build,
        StudioTab::DesignManager,
        StudioTab::Bom,
        StudioTab::Messages,
        StudioTab::Research,
        StudioTab::Viewer3d,
        StudioTab::Console,
        StudioTab::Settings,
        StudioTab::Agent,
    ];

    /// Panels that the dock's add menu offers (the schematic stays single).
    pub const ADDABLE_TABS: [StudioTab; 9] = [
        StudioTab::Build,
        StudioTab::DesignManager,
        StudioTab::Bom,
        StudioTab::Messages,
        StudioTab::Research,
        StudioTab::Viewer3d,
        StudioTab::Console,
        StudioTab::Settings,
        StudioTab::Agent,
    ];

    /// Title of the panel.
    pub fn panel_label(self) -> (s: &'static str)
        ensures
            s@ == studio_tab_label(self),
    {
        match self {
            StudioTab::Canvas => "Schematic",
            StudioTab::Build => "Build",
            StudioTab::DesignManager => "Design",
            StudioTab::Bom => "BOM",
            StudioTab::Messages => "Messages",
            StudioTab::Research => "Research",
            StudioTab::Viewer3d => "Preview",
            StudioTab::Console => "Console",
            StudioTab::Settings => "Settings",
            StudioTab::Agent => "Agent",
        }
    }
}

} // verus!

verus! {

/// Section of the settings dialog.
#[derive(Clone, Copy, Debug, PartialEq, Eq)]
pub enum SettingsSection {
    General,
    Ai,
    Catalog,
    Editor,
    Database,
}

/// Sidebar caption of a settings section.
pub open spec fn settings_section_label(s: SettingsSection) -> Seq<char> {
    match s {
        SettingsSection::General => "General"@,
        SettingsSection::Ai => "AI & Build"@,
        SettingsSection::Catalog => "Catalog & Parts"@,
        SettingsSection::Editor => "Editor"@,
        SettingsSection::Database => "Database"@,
    }
}

impl SettingsSection {
    /// Every section, in sidebar order.
    pub const ALL: [SettingsSection; 5] = [
        SettingsSection::General,
        SettingsSection::Ai,
        SettingsSection::Catalog,
        SettingsSection::Editor,
        SettingsSection::Database,
    ];

    /// The section the dialog opens on.
    pub fn default_section() -> (s: SettingsSection)
        ensures
            s == SettingsSection::General,
    {
        SettingsSection::General
    }

    /// Sidebar caption.
    pub fn label(self) -> (s: &'static str)
        ensures
            s@ == settings_section_label(self),
    {
        match self {
            SettingsSection::General => "General",
            SettingsSection::Ai => "AI & Build",
            SettingsSection::Catalog => "Catalog & Parts",
            SettingsSection::Editor => "Editor",
            SettingsSection::Database => "Database",
        }
    }
}

/// Order of the project list.
#[derive(Clone, Copy, Debug, PartialEq, Eq)]
pub enum ProjectsSort {
    UpdatedDesc,
    UpdatedAsc,
    NameAsc,
    NameDesc,
}

impl ProjectsSort {
    /// The order the project list starts with: latest update first.
    pub fn default_sort() -> (s: ProjectsSort)
        ensures
            s == ProjectsSort::UpdatedDesc,
    {
        ProjectsSort::UpdatedDesc
    }
}

/// Sub-view of the projects page: the launcher, or one project's designs.
#[derive(Clone, Copy, Debug, PartialEq, Eq)]
pub enum ProjectsView {
    Home,
    Designs,
}

/// What the place panel lists.
#[derive(Clone, Copy, Debug, PartialEq, Eq)]
pub enum PlaceScope {
    All,
    Symbols,
    Parts,
    Catalog,
    Power,
}

/// Chip caption of a place-panel scope.
pub open spec fn place_scope_label(s: PlaceScope) -> Seq<char> {
    match s {
        PlaceScope::All => "All"@,
        PlaceScope::Symbols => "Symbols"@,
        PlaceScope::Parts => "Parts"@,
        PlaceScope::Catalog => "LCSC"@,
        PlaceScope::Power => "Power"@,
    }
}

impl PlaceScope {
    /// Every scope, in chip order.
    pub const ALL: [PlaceScope; 5] = [
        PlaceScope::All,
        PlaceScope::Symbols,
        PlaceScope::Parts,
        PlaceScope::Catalog,
        PlaceScope::Power,
    ];

    /// The scope the panel opens on.
    pub fn default_scope() -> (s: PlaceScope)
        ensures
            s == PlaceScope::Parts,
    {
        PlaceScope::Parts
    }

    /// Chip caption.
    pub fn label(self) -> (s: &'static str)
        ensures
            s@ == place_scope_label(self),
    {
        match self {
            PlaceScope::All => "All",
            PlaceScope::Symbols => "Symbols",
            PlaceScope::Parts => "Parts",
            PlaceScope::Catalog => "LCSC",
            PlaceScope::Power => "Power",
        }
    }
}

/// A distributor catalog hit, before it is imported as a local part.
#[derive(Debug)]
pub struct CatalogHit {
    pub mpn: String,
    pub manufacturer: Option<String>,
    pub description: Option<String>,
    pub package_name: Option<String>,
    pub footprint_hint: Option<String>,
    pub datasheet_url: Option<String>,
    pub distributor: String,
    pub sku: String,
    pub product_url: Option<String>,
}

/// The text cut to `max` characters, with an ellipsis when it was longer.
pub open spec fn spec_truncate(s: Seq<char>, max: nat) -> Seq<char> {
    if s.len() <= max {
        s
    } else {
        s.subrange(0, max as int) + "…"@
    }
}

/// Shortens a text for a list row: at most `max` characters, then `…`.
pub fn util_truncate(s: &str, max: usize) -> (r: String)
    ensures
        r@ == spec_truncate(s@, max as nat),
{
    let n = s.unicode_len();
    if n <= max {
        String::from_str(s)
    } else {
        let mut out = String::from_str(s.substring_char(0, max));
        out.append("…");
        out
    }
}

/// The date part of a timestamp text: its first ten bytes when they end on
/// a character boundary, else the whole text.
pub fn short_date(ts: &str) -> (r: String)
    ensures
        ts.spec_bytes().len() >= 10 && vstd::utf8::is_char_boundary(ts.spec_bytes(), 10)
            ==> vstd::utf8::encode_utf8(r@) == ts.spec_bytes().subrange(0, 10),
        !(ts.spec_bytes().len() >= 10 && vstd::utf8::is_char_boundary(ts.spec_bytes(), 10)) ==> r@ == ts@,
{
    if ts.as_bytes().len() >= 10 && ts.is_char_boundary(10) {
        let (head, _) = ts.split_at(10);
        head.to_owned()
    } else {
        ts.to_owned()
    }
}

/// Decimal digit character.
pub open spec fn digit_char(d: nat) -> char {
    ((d + 48) as u8) as char
}

/// Decimal notation of a number, without leading zeros.
pub open spec fn decimal(n: nat) -> Seq<char>
    decreases n,
{
    if n < 10 {
        seq![digit_char(n)]
    } else {
        decimal(n / 10).push(digit_char(n % 10))
    }
}

/// Appends the decimal notation of `n`.
pub fn push_decimal(s: &mut String, n: u64)
    ensures
        final(s)@ == old(s)@ + decimal(n as nat),
    decreases n,
{
    if n >= 10 {
        push_decimal(s, n / 10);
    }
    let d = (n % 10) as u8;
    let c = (d + 48u8) as char;
    crate::text::string_push(s, c);
    proof {
        assert(old(s)@ + decimal(n as nat) =~= if n >= 10 { old(s)@ + decimal((n / 10) as nat) } else { old(s)@ }.push(c));
    }
}

/// Label of a moment given as seconds since the Unix epoch: `t` and the
/// seconds in decimal.
pub fn time_stamp_label(secs: u64) -> (r: String)
    ensures
        r@ == seq!['t'] + decimal(secs as nat),
{
    let mut s = String::from_str("t");
    proof {
        reveal_strlit("t");
    }
    push_decimal(&mut s, secs);
    s
}

} // verus!
