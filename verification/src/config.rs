//! Declarative menu configuration: the three slot entry lists, their entry
//! kinds, and the module-level options with their defaults.

use vstd::prelude::*;

verus! {

/// A section declared from configuration: a display label, an optional icon
/// name, and the category tags that route applications into the section.
#[derive(Debug, Clone, PartialEq)]
pub struct XdgEntry {
    pub label: String,
    pub icon: Option<String>,
    pub categories: Vec<String>,
}

/// A custom action declared from configuration: a leaf button that runs a
/// script when selected, with no category participation.
#[derive(Debug, Clone, PartialEq)]
pub struct CustomEntry {
    pub icon: Option<String>,
    pub label: String,
    pub on_click: String,
}

/// One top-level entry of a slot's configuration.
#[derive(Debug, Clone, PartialEq)]
pub enum MenuConfig {
    XdgEntry(XdgEntry),
    XdgOther,
    Custom(CustomEntry),
}

/// The mathematical value of a [`MenuConfig`].
#[verifier::ext_equal]
pub ghost enum ConfigView {
    Xdg { label: Seq<char>, icon: Option<Seq<char>>, categories: Seq<Seq<char>> },
    Other,
    Custom { label: Seq<char>, icon: Option<Seq<char>>, on_click: Seq<char> },
}

impl View for MenuConfig {
    type V = ConfigView;

    open spec fn view(&self) -> ConfigView {
        match self {
            MenuConfig::XdgEntry(e) => ConfigView::Xdg {
                label: e.label@,
                icon: e.icon.deep_view(),
                categories: e.categories.deep_view(),
            },
            MenuConfig::XdgOther => ConfigView::Other,
            MenuConfig::Custom(c) => ConfigView::Custom {
                label: c.label@,
                icon: c.icon.deep_view(),
                on_click: c.on_click@,
            },
        }
    }
}

impl DeepView for MenuConfig {
    type V = ConfigView;

    open spec fn deep_view(&self) -> ConfigView {
        self.view()
    }
}

/// The reserved label of the catch-all overflow section.
pub open spec fn other_label() -> Seq<char> {
    "Other"@
}

/// The label under which a configuration entry is registered in its slot.
pub open spec fn config_label(c: ConfigView) -> Seq<char> {
    match c {
        ConfigView::Xdg { label, .. } => label,
        ConfigView::Other => other_label(),
        ConfigView::Custom { label, .. } => label,
    }
}

/// No two entries of the slot configuration share a label.
pub open spec fn config_labels_distinct(cfg: Seq<ConfigView>) -> bool {
    forall|i: int, j: int|
        0 <= i < j < cfg.len() ==> config_label(cfg[i]) != config_label(cfg[j])
}

/// The default center-slot configuration: the standard sections for the
/// common desktop-entry categories, followed by the catch-all section.
pub open spec fn default_menu_view() -> Seq<ConfigView> {
    seq![
        ConfigView::Xdg {
            label: "Settings"@,
            icon: Some("preferences-system"@),
            categories: seq!["Settings"@, "Screensaver"@],
        },
        ConfigView::Xdg {
            label: "Accessories"@,
            icon: Some("accessories"@),
            categories: seq!["Accessibility"@, "Core"@, "Legacy"@, "Utility"@],
        },
        ConfigView::Xdg {
            label: "Development"@,
            icon: Some("applications-development"@),
            categories: seq!["Development"@],
        },
        ConfigView::Xdg {
            label: "Education"@,
            icon: Some("applications-education"@),
            categories: seq!["Education"@],
        },
        ConfigView::Xdg {
            label: "Games"@,
            icon: Some("applications-games"@),
            categories: seq!["Game"@],
        },
        ConfigView::Xdg {
            label: "Graphics"@,
            icon: Some("applications-graphics"@),
            categories: seq!["Graphics"@],
        },
        ConfigView::Xdg {
            label: "Multimedia"@,
            icon: Some("applications-multimedia"@),
            categories: seq!["Audio"@, "Video"@, "AudioVideo"@],
        },
        ConfigView::Xdg {
            label: "Network"@,
            icon: Some("applications-internet"@),
            categories: seq!["Network"@],
        },
        ConfigView::Xdg {
            label: "Office"@,
            icon: Some("applications-office"@),
            categories: seq!["Office"@],
        },
        ConfigView::Xdg {
            label: "Science"@,
            icon: Some("applications-science"@),
            categories: seq!["Science"@],
        },
        ConfigView::Xdg {
            label: "System"@,
            icon: Some("applications-system"@),
            categories: seq!["Emulator"@, "System"@],
        },
        ConfigView::Other,
    ]
}

/// Builds one default section entry.
fn xdg(label: &str, icon: &str, categories: Vec<String>) -> (r: MenuConfig)
    ensures
        r@ == (ConfigView::Xdg {
            label: label@,
            icon: Some(icon@),
            categories: categories.deep_view(),
        }),
{
    let r = MenuConfig::XdgEntry(
        XdgEntry { label: label.to_owned(), icon: Some(icon.to_owned()), categories },
    );
    proof {
        assert(r@ =~~= (ConfigView::Xdg {
            label: label@,
            icon: Some(icon@),
            categories: categories.deep_view(),
        }));
    }
    r
}

/// The default center-slot configuration.
pub fn default_menu() -> (r: Vec<MenuConfig>)
    ensures
        r.deep_view() == default_menu_view(),
{
    let r: Vec<MenuConfig> = vec![
        xdg(
            "Settings",
            "preferences-system",
            vec!["Settings".to_owned(), "Screensaver".to_owned()],
        ),
        xdg(
            "Accessories",
            "accessories",
            vec![
                "Accessibility".to_owned(),
                "Core".to_owned(),
                "Legacy".to_owned(),
                "Utility".to_owned(),
            ],
        ),
        xdg("Development", "applications-development", vec!["Development".to_owned()]),
        xdg("Education", "applications-education", vec!["Education".to_owned()]),
        xdg("Games", "applications-games", vec!["Game".to_owned()]),
        xdg("Graphics", "applications-graphics", vec!["Graphics".to_owned()]),
        xdg(
            "Multimedia",
            "applications-multimedia",
            vec!["Audio".to_owned(), "Video".to_owned(), "AudioVideo".to_owned()],
        ),
        xdg("Network", "applications-internet", vec!["Network".to_owned()]),
        xdg("Office", "applications-office", vec!["Office".to_owned()]),
        xdg("Science", "applications-science", vec!["Science".to_owned()]),
        xdg("System", "applications-system", vec!["Emulator".to_owned(), "System".to_owned()]),
        MenuConfig::XdgOther,
    ];
    proof {
        assert(r.deep_view() =~~= default_menu_view());
    }
    r
}

/// The declarative configuration of one menu module.
#[derive(Debug, Clone, PartialEq)]
pub struct MenuModule {
    pub start: Vec<MenuConfig>,
    pub center: Vec<MenuConfig>,
    pub end: Vec<MenuConfig>,
    pub height: Option<i32>,
    pub width: Option<i32>,
    pub max_label_length: usize,
    pub label: Option<String>,
    pub label_icon: Option<String>,
    pub label_icon_size: i32,
    pub common: Option<crate::bindings::CommonConfig>,
}

impl Default for MenuModule {
    /// The default module: empty start and end slots, the default center
    /// menu, the default label and sizes, and an empty common
    /// configuration.
    fn default() -> (r: Self)
        ensures
            r.start.deep_view() == Seq::<ConfigView>::empty(),
            r.center.deep_view() == default_menu_view(),
            r.end.deep_view() == Seq::<ConfigView>::empty(),
            r.height is None,
            r.width is None,
            r.max_label_length == 25,
            r.label matches Some(l) && l@ == "\u{2261}"@,
            r.label_icon is None,
            r.label_icon_size == 16,
            r.common matches Some(c) && crate::bindings::config_unbound(c),
    {
        let start: Vec<MenuConfig> = Vec::new();
        let end: Vec<MenuConfig> = Vec::new();
        proof {
            assert(start.deep_view() =~= Seq::<ConfigView>::empty());
            assert(end.deep_view() =~= Seq::<ConfigView>::empty());
        }
        MenuModule {
            start,
            center: default_menu(),
            end,
            height: None,
            width: None,
            max_label_length: default_length(),
            label: default_menu_popup_label(),
            label_icon: None,
            label_icon_size: default_menu_popup_icon_size(),
            common: Some(crate::bindings::CommonConfig::default()),
        }
    }
}

/// The default grapheme-cluster limit for application labels.
pub fn default_length() -> (r: usize)
    ensures
        r == 25,
{
    25
}

/// The default text of the button that opens the menu.
pub fn default_menu_popup_label() -> (r: Option<String>)
    ensures
        r matches Some(l) && l@ == "\u{2261}"@,
{
    Some("\u{2261}".to_owned())
}

/// The default pixel size of the button's icon.
pub fn default_menu_popup_icon_size() -> (r: i32)
    ensures
        r == 16,
{
    16
}

} // verus!
