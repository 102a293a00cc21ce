//! Building a menu from declarative configuration: one pass over each
//! slot's entry list registers every declared category route and creates
//! the slot's empty sections, rejecting duplicate labels.

use vstd::prelude::*;
use crate::config::{
    config_label, config_labels_distinct, other_label, ConfigView, CustomEntry, MenuConfig,
};
use crate::index::{route_register, CategoryIndex, RouteView};
use crate::menu::{
    entry_apps, entry_label, menu_fresh, menu_wf, EntryView, Menu, MenuEntry, MenuView, XdgSection,
};
use crate::order::str_eq;

verus! {

/// A configuration rejected at load time.
#[derive(Debug, Clone, PartialEq)]
pub enum ConfigError {
    /// Two entries of one slot's configuration share this label.
    DuplicateLabel(String),
}

/// The empty entry a configuration entry gives rise to: a declared section,
/// the reserved catch-all section with its fixed icon, or a custom action
/// leaf.
pub open spec fn entry_of_config(c: ConfigView) -> EntryView {
    match c {
        ConfigView::Xdg { label, icon, .. } => EntryView::Xdg {
            label: label,
            icon: icon,
            applications: Seq::empty(),
        },
        ConfigView::Other => EntryView::Xdg {
            label: other_label(),
            icon: Some("applications-other"@),
            applications: Seq::empty(),
        },
        ConfigView::Custom { label, icon, on_click } => EntryView::Custom {
            label: label,
            icon: icon,
            on_click: on_click,
        },
    }
}

/// A slot's entries as declared, in configuration order, all sections
/// empty.
pub open spec fn slot_of_config(cfg: Seq<ConfigView>) -> Seq<EntryView> {
    cfg.map_values(|c: ConfigView| entry_of_config(c))
}

/// The index after section `label` registers all its category tags in
/// order.
pub open spec fn register_categories(
    iv: Seq<RouteView>,
    categories: Seq<Seq<char>>,
    label: Seq<char>,
) -> Seq<RouteView>
    decreases categories.len(),
{
    if categories.len() == 0 {
        iv
    } else {
        register_categories(route_register(iv, categories[0], label), categories.drop_first(), label)
    }
}

/// The index after one configuration entry: a declared section registers
/// its tags; the catch-all and custom entries register nothing.
pub open spec fn index_after_entry(iv: Seq<RouteView>, c: ConfigView) -> Seq<RouteView> {
    match c {
        ConfigView::Xdg { label, categories, .. } => register_categories(iv, categories, label),
        _ => iv,
    }
}

/// The index after a whole slot configuration, folded in declaration
/// order.
pub open spec fn index_after_config(iv: Seq<RouteView>, cfg: Seq<ConfigView>) -> Seq<RouteView>
    decreases cfg.len(),
{
    if cfg.len() == 0 {
        iv
    } else {
        index_after_config(index_after_entry(iv, cfg[0]), cfg.drop_first())
    }
}

proof fn lemma_register_categories_snoc(
    iv: Seq<RouteView>,
    categories: Seq<Seq<char>>,
    t: Seq<char>,
    label: Seq<char>,
)
    ensures
        register_categories(iv, categories.push(t), label) == route_register(
            register_categories(iv, categories, label),
            t,
            label,
        ),
    decreases categories.len(),
{
    if categories.len() == 0 {
        assert(categories.push(t)[0] == t);
        assert(categories.push(t).drop_first() =~= categories);
        assert(register_categories(route_register(iv, t, label), categories, label)
            == route_register(iv, t, label));
    } else {
        assert(categories.push(t)[0] == categories[0]);
        assert(categories.push(t).drop_first() =~= categories.drop_first().push(t));
        lemma_register_categories_snoc(
            route_register(iv, categories[0], label),
            categories.drop_first(),
            t,
            label,
        );
    }
}

proof fn lemma_index_after_config_snoc(iv: Seq<RouteView>, cfg: Seq<ConfigView>, c: ConfigView)
    ensures
        index_after_config(iv, cfg.push(c)) == index_after_entry(index_after_config(iv, cfg), c),
    decreases cfg.len(),
{
    if cfg.len() == 0 {
        assert(cfg.push(c)[0] == c);
        assert(cfg.push(c).drop_first() =~= cfg);
        assert(index_after_config(index_after_entry(iv, c), cfg) == index_after_entry(iv, c));
    } else {
        assert(cfg.push(c)[0] == cfg[0]);
        assert(cfg.push(c).drop_first() =~= cfg.drop_first().push(c));
        lemma_index_after_config_snoc(index_after_entry(iv, cfg[0]), cfg.drop_first(), c);
    }
}

/// The label under which a configuration entry is registered.
fn config_label_exec(c: &MenuConfig) -> (r: &str)
    ensures
        r@ == config_label(c@),
{
    match c {
        MenuConfig::XdgEntry(e) => e.label.as_str(),
        MenuConfig::XdgOther => "Other",
        MenuConfig::Custom(e) => e.label.as_str(),
    }
}

/// An independent copy of an optional string with the same value.
fn clone_opt_string(o: &Option<String>) -> (r: Option<String>)
    ensures
        r.deep_view() == o.deep_view(),
{
    match o {
        Some(s) => Some(s.clone()),
        None => None,
    }
}

/// Parses one slot's configuration: registers every declared category
/// route in the shared index and returns the slot's entries, in
/// configuration order with all sections empty. A duplicate label is a
/// configuration error and leaves the index unchanged.
pub fn parse_config(section_config: &Vec<MenuConfig>, index: &mut CategoryIndex) -> (r: Result<
    Vec<MenuEntry>,
    ConfigError,
>)
    ensures
        r is Ok <==> config_labels_distinct(section_config.deep_view()),
        r matches Ok(entries) ==> entries.deep_view() == slot_of_config(
            section_config.deep_view(),
        ) && final(index)@ == index_after_config(old(index)@, section_config.deep_view()),
        r is Err ==> final(index)@ == old(index)@,
        r matches Err(ConfigError::DuplicateLabel(l)) ==> exists|i: int, j: int|
            0 <= i < j < section_config.deep_view().len() && config_label(
                section_config.deep_view()[i],
            ) == config_label(section_config.deep_view()[j]) && config_label(
                section_config.deep_view()[j],
            ) == l@,
{
    let ghost dv = section_config.deep_view();
    let n = section_config.len();

    let mut j: usize = 0;
    while j < n
        invariant
            j <= n,
            n == section_config@.len(),
            dv == section_config.deep_view(),
            forall|p: int, q: int| 0 <= p < q < j ==> config_label(dv[p]) != config_label(dv[q]),
        decreases n - j,
    {
        let label_j = config_label_exec(&section_config[j]);
        let mut i: usize = 0;
        while i < j
            invariant
                i <= j < n,
                n == section_config@.len(),
                dv == section_config.deep_view(),
                label_j@ == config_label(dv[j as int]),
                forall|p: int| 0 <= p < i ==> config_label(dv[p]) != config_label(dv[j as int]),
            decreases j - i,
        {
            if str_eq(config_label_exec(&section_config[i]), label_j) {
                proof {
                    let p = i as int;
                    let q = j as int;
                    assert(config_label(dv[p]) == config_label(dv[q]));
                    assert(exists|p2: int, q2: int|
                        0 <= p2 < q2 < dv.len() && config_label(dv[p2]) == config_label(dv[q2])
                            && config_label(dv[q2]) == label_j@) by {
                        assert(0 <= p < q < dv.len() && config_label(dv[p]) == config_label(dv[q])
                            && config_label(dv[q]) == label_j@);
                    }
                    assert(!config_labels_distinct(dv));
                }
                return Err(ConfigError::DuplicateLabel(label_j.to_owned()));
            }
            i = i + 1;
        }
        j = j + 1;
    }

    let ghost iv0 = index@;
    let mut entries: Vec<MenuEntry> = Vec::new();
    proof {
        assert(dv.take(0) =~= Seq::<ConfigView>::empty());
        assert(entries.deep_view() =~~= slot_of_config(dv.take(0)));
    }
    let mut t: usize = 0;
    while t < n
        invariant
            t <= n,
            n == section_config@.len(),
            dv == section_config.deep_view(),
            entries.deep_view() == slot_of_config(dv.take(t as int)),
            index@ == index_after_config(iv0, dv.take(t as int)),
        decreases n - t,
    {
        match &section_config[t] {
            MenuConfig::XdgEntry(entry) => {
                let ghost ivt = index@;
                let ghost cats = entry.categories.deep_view();
                let m = entry.categories.len();
                let mut c: usize = 0;
                proof {
                    assert(cats.take(0) =~= Seq::<Seq<char>>::empty());
                }
                while c < m
                    invariant
                        c <= m,
                        m == entry.categories@.len(),
                        cats == entry.categories.deep_view(),
                        index@ == register_categories(ivt, cats.take(c as int), entry.label@),
                    decreases m - c,
                {
                    index.register(entry.categories[c].as_str(), entry.label.as_str());
                    proof {
                        assert(cats.take(c as int).push(cats[c as int]) =~= cats.take(c as int + 1));
                        lemma_register_categories_snoc(
                            ivt,
                            cats.take(c as int),
                            cats[c as int],
                            entry.label@,
                        );
                    }
                    c = c + 1;
                }
                proof {
                    assert(cats.take(m as int) =~= cats);
                }
                let new_entry = MenuEntry::Xdg(
                    XdgSection {
                        label: entry.label.clone(),
                        icon: clone_opt_string(&entry.icon),
                        applications: Vec::new(),
                    },
                );
                proof {
                    assert(new_entry@ =~~= entry_of_config(dv[t as int]));
                }
                proof {
                    assert(entries.deep_view().len() == t);
                    assert(entries@.len() == t);
                }
                entries.push(new_entry);
                proof {
                    assert(entries@[t as int] == new_entry);
                    assert(entries@[t as int].deep_view() == entry_of_config(dv[t as int]));
                }
            },
            MenuConfig::XdgOther => {
                let new_entry = MenuEntry::Xdg(
                    XdgSection {
                        label: "Other".to_owned(),
                        icon: Some("applications-other".to_owned()),
                        applications: Vec::new(),
                    },
                );
                proof {
                    assert(new_entry@ =~~= entry_of_config(dv[t as int]));
                }
                proof {
                    assert(entries.deep_view().len() == t);
                    assert(entries@.len() == t);
                }
                entries.push(new_entry);
                proof {
                    assert(entries@[t as int] == new_entry);
                    assert(entries@[t as int].deep_view() == entry_of_config(dv[t as int]));
                }
            },
            MenuConfig::Custom(entry) => {
                let new_entry = MenuEntry::Custom(
                    CustomEntry {
                        icon: clone_opt_string(&entry.icon),
                        label: entry.label.clone(),
                        on_click: entry.on_click.clone(),
                    },
                );
                proof {
                    assert(new_entry@ =~~= entry_of_config(dv[t as int]));
                }
                proof {
                    assert(entries.deep_view().len() == t);
                    assert(entries@.len() == t);
                }
                entries.push(new_entry);
                proof {
                    assert(entries@[t as int] == new_entry);
                    assert(entries@[t as int].deep_view() == entry_of_config(dv[t as int]));
                }
            },
        }
        proof {
            assert(dv.take(t as int).push(dv[t as int]) =~= dv.take(t as int + 1));
            lemma_index_after_config_snoc(iv0, dv.take(t as int), dv[t as int]);
            let prev = slot_of_config(dv.take(t as int));
            let cur = slot_of_config(dv.take(t as int + 1));
            assert(entries.deep_view().len() == t + 1);
            assert(cur.len() == t + 1);
            assert forall|k: int| 0 <= k < t + 1 implies entries.deep_view()[k] == cur[k] by {
                assert(cur[k] == entry_of_config(dv.take(t as int + 1)[k]));
                if k < t {
                    assert(entries.deep_view()[k] == prev[k]);
                    assert(prev[k] == entry_of_config(dv.take(t as int)[k]));
                } else {
                    assert(entries.deep_view()[k] == entries@[t as int].deep_view());
                }
            }
            assert(entries.deep_view() =~= cur);
        }
        t = t + 1;
    }
    proof {
        assert(dv.take(n as int) =~= dv);
    }
    Ok(entries)
}

/// The menu a configuration gives rise to: each slot's declared entries in
/// order with empty sections, and the index folded over the three slot
/// configurations in slot order.
pub open spec fn menu_of_config(
    s: Seq<ConfigView>,
    c: Seq<ConfigView>,
    e: Seq<ConfigView>,
) -> MenuView {
    MenuView {
        start: slot_of_config(s),
        center: slot_of_config(c),
        end: slot_of_config(e),
        index: index_after_config(
            index_after_config(index_after_config(Seq::empty(), s), c),
            e,
        ),
    }
}

/// A slot built from a duplicate-free configuration is well-formed and
/// fresh.
proof fn lemma_slot_of_config_wf(cfg: Seq<ConfigView>)
    requires
        config_labels_distinct(cfg),
    ensures
        forall|i: int|
            0 <= i < slot_of_config(cfg).len() ==> entry_apps(slot_of_config(cfg)[i]).len() == 0,
        forall|i: int, j: int|
            0 <= i < j < slot_of_config(cfg).len() ==> entry_label(slot_of_config(cfg)[i])
                != entry_label(slot_of_config(cfg)[j]),
{
    assert forall|i: int| 0 <= i < slot_of_config(cfg).len() implies entry_apps(
        slot_of_config(cfg)[i],
    ).len() == 0 by {
        assert(slot_of_config(cfg)[i] == entry_of_config(cfg[i]));
    }
    assert forall|i: int, j: int| 0 <= i < j < slot_of_config(cfg).len() implies entry_label(
        slot_of_config(cfg)[i],
    ) != entry_label(slot_of_config(cfg)[j]) by {
        assert(slot_of_config(cfg)[i] == entry_of_config(cfg[i]));
        assert(slot_of_config(cfg)[j] == entry_of_config(cfg[j]));
        assert(entry_label(entry_of_config(cfg[i])) == config_label(cfg[i]));
        assert(entry_label(entry_of_config(cfg[j])) == config_label(cfg[j]));
    }
}

impl Menu {
    /// Builds the menu from the three slot configurations, registering
    /// every declared category route in slot order. A duplicate label
    /// within one slot's configuration is rejected.
    pub fn new(
        start_config: &Vec<MenuConfig>,
        center_config: &Vec<MenuConfig>,
        end_config: &Vec<MenuConfig>,
    ) -> (r: Result<Menu, ConfigError>)
        ensures
            r is Ok <==> config_labels_distinct(start_config.deep_view())
                && config_labels_distinct(center_config.deep_view()) && config_labels_distinct(
                end_config.deep_view(),
            ),
            r matches Ok(m) ==> m@ == menu_of_config(
                start_config.deep_view(),
                center_config.deep_view(),
                end_config.deep_view(),
            ) && menu_wf(m@) && menu_fresh(m@),
    {
        let mut index = CategoryIndex::new();
        let start = match parse_config(start_config, &mut index) {
            Ok(entries) => entries,
            Err(e) => {
                return Err(e);
            },
        };
        let center = match parse_config(center_config, &mut index) {
            Ok(entries) => entries,
            Err(e) => {
                return Err(e);
            },
        };
        let end = match parse_config(end_config, &mut index) {
            Ok(entries) => entries,
            Err(e) => {
                return Err(e);
            },
        };
        let menu = Menu { start, center, end, index };
        proof {
            assert(menu@ =~= menu_of_config(
                start_config.deep_view(),
                center_config.deep_view(),
                end_config.deep_view(),
            ));
            lemma_slot_of_config_wf(start_config.deep_view());
            lemma_slot_of_config_wf(center_config.deep_view());
            lemma_slot_of_config_wf(end_config.deep_view());
        }
        Ok(menu)
    }
}

impl crate::config::MenuModule {
    /// Builds the aggregation menu from this module's three slot
    /// configurations.
    pub fn build_menu(&self) -> (r: Result<Menu, ConfigError>)
        ensures
            r is Ok <==> config_labels_distinct(self.start.deep_view())
                && config_labels_distinct(self.center.deep_view()) && config_labels_distinct(
                self.end.deep_view(),
            ),
            r matches Ok(m) ==> m@ == menu_of_config(
                self.start.deep_view(),
                self.center.deep_view(),
                self.end.deep_view(),
            ) && menu_wf(m@) && menu_fresh(m@),
    {
        Menu::new(&self.start, &self.center, &self.end)
    }
}

} // verus!
