//! The menu aggregation engine: classification of application records into
//! the configured sections of the three slots, with keyed, sorted insertion
//! and a slot-specific catch-all section.

use vstd::prelude::*;
use crate::config::{CustomEntry, other_label};
use crate::index::{CategoryIndex, RouteView, route_lookup};
use crate::order::{lex_lt, str_eq, str_lt};
use crate::records::{AppView, MenuApplication};

verus! {

/// A named section holding the applications routed to it, kept sorted by
/// label and keyed by label.
#[derive(Debug, Clone, PartialEq)]
pub struct XdgSection {
    pub label: String,
    pub icon: Option<String>,
    pub applications: Vec<MenuApplication>,
}

/// One top-level entry of a slot: a section of applications or a custom
/// action leaf.
#[derive(Debug, Clone, PartialEq)]
pub enum MenuEntry {
    Xdg(XdgSection),
    Custom(CustomEntry),
}

/// The mathematical value of a [`MenuEntry`].
#[verifier::ext_equal]
pub ghost enum EntryView {
    Xdg { label: Seq<char>, icon: Option<Seq<char>>, applications: Seq<AppView> },
    Custom { label: Seq<char>, icon: Option<Seq<char>>, on_click: Seq<char> },
}

impl View for MenuEntry {
    type V = EntryView;

    open spec fn view(&self) -> EntryView {
        match self {
            MenuEntry::Xdg(s) => EntryView::Xdg {
                label: s.label@,
                icon: s.icon.deep_view(),
                applications: s.applications.deep_view(),
            },
            MenuEntry::Custom(c) => EntryView::Custom {
                label: c.label@,
                icon: c.icon.deep_view(),
                on_click: c.on_click@,
            },
        }
    }
}

impl DeepView for MenuEntry {
    type V = EntryView;

    open spec fn deep_view(&self) -> EntryView {
        self.view()
    }
}

/// The display label of an entry.
pub open spec fn entry_label(e: EntryView) -> Seq<char> {
    match e {
        EntryView::Xdg { label, .. } => label,
        EntryView::Custom { label, .. } => label,
    }
}

/// The icon name of an entry.
pub open spec fn entry_icon(e: EntryView) -> Option<Seq<char>> {
    match e {
        EntryView::Xdg { icon, .. } => icon,
        EntryView::Custom { icon, .. } => icon,
    }
}

/// Whether an entry is a section (rather than a custom action).
pub open spec fn entry_is_section(e: EntryView) -> bool {
    e is Xdg
}

/// The applications held by an entry; a custom action holds none.
pub open spec fn entry_apps(e: EntryView) -> Seq<AppView> {
    match e {
        EntryView::Xdg { applications, .. } => applications,
        EntryView::Custom { .. } => Seq::empty(),
    }
}

impl MenuEntry {
    /// The display label of the entry.
    pub fn label(&self) -> (r: String)
        ensures
            r@ == entry_label(self@),
    {
        match self {
            MenuEntry::Xdg(entry) => entry.label.clone(),
            MenuEntry::Custom(entry) => entry.label.clone(),
        }
    }

    /// The icon name of the entry, if one is configured.
    pub fn icon(&self) -> (r: Option<String>)
        ensures
            r.deep_view() == match self@ {
                EntryView::Xdg { icon, .. } => icon,
                EntryView::Custom { icon, .. } => icon,
            },
    {
        let icon = match self {
            MenuEntry::Xdg(entry) => &entry.icon,
            MenuEntry::Custom(entry) => &entry.icon,
        };
        match icon {
            Some(name) => Some(name.clone()),
            None => None,
        }
    }
}

/// A section's applications after inserting a record keyed by its label:
/// the record takes its sorted position, replacing the entry with the same
/// label if one is present.
pub open spec fn insert_app_spec(s: Seq<AppView>, a: AppView) -> Seq<AppView>
    decreases s.len(),
{
    if s.len() == 0 {
        seq![a]
    } else if lex_lt(s[0].label, a.label) {
        seq![s[0]] + insert_app_spec(s.drop_first(), a)
    } else if s[0].label == a.label {
        seq![a] + s.drop_first()
    } else {
        seq![a] + s
    }
}

/// Positional form of [`insert_app_spec`]: when the first `i` labels sort
/// before the record's label and position `i` does not, insertion acts at
/// position `i`.
proof fn lemma_insert_app_spec_at(s: Seq<AppView>, a: AppView, i: int)
    requires
        0 <= i <= s.len(),
        forall|k: int| 0 <= k < i ==> lex_lt(s[k].label, a.label),
        i < s.len() ==> !lex_lt(s[i].label, a.label),
    ensures
        i < s.len() && s[i].label == a.label ==> insert_app_spec(s, a) == s.update(i, a),
        !(i < s.len() && s[i].label == a.label) ==> insert_app_spec(s, a) == s.insert(i, a),
    decreases i,
{
    if i > 0 {
        lemma_insert_app_spec_at(s.drop_first(), a, i - 1);
        if i < s.len() && s[i].label == a.label {
            assert(insert_app_spec(s, a) =~= s.update(i, a));
        } else {
            assert(insert_app_spec(s, a) =~= s.insert(i, a));
        }
    } else {
        if i < s.len() && s[i].label == a.label {
            assert(insert_app_spec(s, a) =~= s.update(i, a));
        } else if i < s.len() {
            assert(insert_app_spec(s, a) =~= s.insert(i, a));
        } else {
            assert(s.len() == 0);
            assert(insert_app_spec(s, a) =~= s.insert(i, a));
        }
    }
}

/// The position at which `label` is at or would be inserted into the
/// sorted application list.
fn find_app_pos(v: &Vec<MenuApplication>, label: &str) -> (i: usize)
    ensures
        i <= v@.len(),
        forall|k: int| 0 <= k < i ==> lex_lt(v.deep_view()[k].label, label@),
        i < v@.len() ==> !lex_lt(v.deep_view()[i as int].label, label@),
{
    let n = v.len();
    let mut i: usize = 0;
    while i < n
        invariant
            i <= n,
            n == v@.len(),
            forall|k: int| 0 <= k < i ==> lex_lt(v.deep_view()[k].label, label@),
        decreases n - i,
    {
        if !str_lt(v[i].label.as_str(), label) {
            return i;
        }
        proof {
            assert(lex_lt(v.deep_view()[i as int].label, label@));
        }
        i = i + 1;
    }
    i
}

/// Inserts a record into a section's sorted application list, keyed by its
/// label.
pub fn insert_app_sorted(v: &mut Vec<MenuApplication>, app: &MenuApplication)
    ensures
        final(v).deep_view() == insert_app_spec(old(v).deep_view(), app@),
{
    let i = find_app_pos(v, app.label.as_str());
    proof {
        lemma_insert_app_spec_at(v.deep_view(), app@, i as int);
    }
    if i < v.len() && str_eq(v[i].label.as_str(), app.label.as_str()) {
        v.remove(i);
        v.insert(i, app.duplicate());
        proof {
            assert(v.deep_view() =~= old(v).deep_view().update(i as int, app@));
        }
    } else {
        v.insert(i, app.duplicate());
        proof {
            assert(v.deep_view() =~= old(v).deep_view().insert(i as int, app@));
        }
    }
}

/// Whether the index routes `tag` to the section labelled `label`.
pub open spec fn tag_routes_to(iv: Seq<RouteView>, tag: Seq<char>, label: Seq<char>) -> bool {
    match route_lookup(iv, tag) {
        Some(sections) => sections.contains(label),
        None => false,
    }
}

/// Whether one of the record's category tags routes it to the section
/// labelled `label`.
pub open spec fn app_matches_label(iv: Seq<RouteView>, a: AppView, label: Seq<char>) -> bool {
    exists|k: int| 0 <= k < a.categories.len() && tag_routes_to(iv, a.categories[k], label)
}

/// Whether any of the record's category tags is known to the index at all;
/// a record matching nowhere overflows to the catch-all section.
pub open spec fn app_matched(iv: Seq<RouteView>, a: AppView) -> bool {
    exists|k: int| 0 <= k < a.categories.len() && route_lookup(iv, a.categories[k]) is Some
}

/// Whether an entry receives the record: it is a section whose label some
/// tag of the record routes to, or it is the catch-all section of a slot
/// chosen to take the record's overflow.
pub open spec fn entry_receives(
    e: EntryView,
    a: AppView,
    iv: Seq<RouteView>,
    route_other: bool,
) -> bool {
    entry_is_section(e) && (app_matches_label(iv, a, entry_label(e)) || (route_other
        && entry_label(e) == other_label()))
}

/// An entry after the record is offered to it: a receiving section takes
/// the record by sorted, keyed insertion; any other entry is unchanged.
pub open spec fn entry_insert(
    e: EntryView,
    a: AppView,
    iv: Seq<RouteView>,
    route_other: bool,
) -> EntryView {
    if entry_receives(e, a, iv, route_other) {
        match e {
            EntryView::Xdg { label, icon, applications } => EntryView::Xdg {
                label: label,
                icon: icon,
                applications: insert_app_spec(applications, a),
            },
            EntryView::Custom { .. } => e,
        }
    } else {
        e
    }
}

/// A slot's entries after the record is offered to each of them.
pub open spec fn slot_insert(
    s: Seq<EntryView>,
    a: AppView,
    iv: Seq<RouteView>,
    route_other: bool,
) -> Seq<EntryView> {
    s.map_values(|e: EntryView| entry_insert(e, a, iv, route_other))
}

/// The mathematical value of a [`Menu`].
#[verifier::ext_equal]
pub ghost struct MenuView {
    pub start: Seq<EntryView>,
    pub center: Seq<EntryView>,
    pub end: Seq<EntryView>,
    pub index: Seq<RouteView>,
}

/// The menu after one record is classified: every section some tag of the
/// record routes to receives it, across all three slots; a record whose
/// tags are all unknown goes to the center slot's catch-all section
/// instead.
pub open spec fn menu_insert(m: MenuView, a: AppView) -> MenuView {
    let overflow = !app_matched(m.index, a);
    MenuView {
        start: slot_insert(m.start, a, m.index, false),
        center: slot_insert(m.center, a, m.index, overflow),
        end: slot_insert(m.end, a, m.index, false),
        index: m.index,
    }
}

/// The menu after a batch of records is classified in delivery order.
pub open spec fn menu_feed(m: MenuView, rs: Seq<AppView>) -> MenuView
    decreases rs.len(),
{
    if rs.len() == 0 {
        m
    } else {
        menu_feed(menu_insert(m, rs[0]), rs.drop_first())
    }
}

/// The aggregated menu: the three slots' entries and the category index
/// that routes records into them.
#[derive(Debug, Clone, PartialEq)]
pub struct Menu {
    pub start: Vec<MenuEntry>,
    pub center: Vec<MenuEntry>,
    pub end: Vec<MenuEntry>,
    pub index: CategoryIndex,
}

impl View for Menu {
    type V = MenuView;

    open spec fn view(&self) -> MenuView {
        MenuView {
            start: self.start.deep_view(),
            center: self.center.deep_view(),
            end: self.end.deep_view(),
            index: self.index@,
        }
    }
}

/// Whether `sections` contains `label`.
fn sections_contain(sections: &Vec<String>, label: &str) -> (b: bool)
    ensures
        b == sections.deep_view().contains(label@),
{
    let n = sections.len();
    let mut i: usize = 0;
    while i < n
        invariant
            i <= n,
            n == sections@.len(),
            forall|k: int| 0 <= k < i ==> sections.deep_view()[k] != label@,
        decreases n - i,
    {
        if str_eq(sections[i].as_str(), label) {
            proof {
                assert(sections.deep_view()[i as int] == label@);
            }
            return true;
        }
        i = i + 1;
    }
    proof {
        if sections.deep_view().contains(label@) {
            let k = choose|k: int|
                0 <= k < sections.deep_view().len() && sections.deep_view()[k] == label@;
            assert(false);
        }
    }
    false
}

/// Whether one of the record's tags routes it to the section labelled
/// `label`.
fn app_matches(index: &CategoryIndex, app: &MenuApplication, label: &str) -> (b: bool)
    ensures
        b == app_matches_label(index@, app@, label@),
{
    let n = app.categories.len();
    let mut i: usize = 0;
    while i < n
        invariant
            i <= n,
            n == app.categories@.len(),
            forall|k: int| 0 <= k < i ==> !tag_routes_to(index@, app@.categories[k], label@),
        decreases n - i,
    {
        match index.lookup(app.categories[i].as_str()) {
            Some(sections) => {
                if sections_contain(sections, label) {
                    proof {
                        assert(tag_routes_to(index@, app@.categories[i as int], label@));
                    }
                    return true;
                }
            },
            None => {},
        }
        i = i + 1;
    }
    proof {
        if app_matches_label(index@, app@, label@) {
            let k = choose|k: int|
                0 <= k < app@.categories.len() && tag_routes_to(
                    index@,
                    app@.categories[k],
                    label@,
                );
            assert(false);
        }
    }
    false
}

/// Whether any of the record's tags is known to the index.
fn app_has_route(index: &CategoryIndex, app: &MenuApplication) -> (b: bool)
    ensures
        b == app_matched(index@, app@),
{
    let n = app.categories.len();
    let mut i: usize = 0;
    while i < n
        invariant
            i <= n,
            n == app.categories@.len(),
            forall|k: int| 0 <= k < i ==> route_lookup(index@, app@.categories[k]) is None,
        decreases n - i,
    {
        match index.lookup(app.categories[i].as_str()) {
            Some(_) => {
                proof {
                    assert(route_lookup(index@, app@.categories[i as int]) is Some);
                }
                return true;
            },
            None => {},
        }
        i = i + 1;
    }
    proof {
        if app_matched(index@, app@) {
            let k = choose|k: int|
                0 <= k < app@.categories.len() && route_lookup(index@, app@.categories[k]) is Some;
            assert(false);
        }
    }
    false
}

/// Offers the record to every entry of one slot.
fn slot_insert_exec(
    entries: &mut Vec<MenuEntry>,
    app: &MenuApplication,
    index: &CategoryIndex,
    route_other: bool,
)
    ensures
        final(entries).deep_view() == slot_insert(
            old(entries).deep_view(),
            app@,
            index@,
            route_other,
        ),
{
    let ghost ov = old(entries).deep_view();
    let n = entries.len();
    let mut j: usize = 0;
    while j < n
        invariant
            j <= n,
            n == entries@.len(),
            entries@.len() == ov.len(),
            forall|k: int| j <= k < n ==> entries@[k].deep_view() == ov[k],
            forall|k: int|
                0 <= k < j ==> entries@[k].deep_view() == entry_insert(
                    ov[k],
                    app@,
                    index@,
                    route_other,
                ),
        decreases n - j,
    {
        let receives = match &entries[j] {
            MenuEntry::Xdg(section) => {
                app_matches(index, app, section.label.as_str()) || (route_other && str_eq(
                    section.label.as_str(),
                    "Other",
                ))
            },
            MenuEntry::Custom(_) => false,
        };
        proof {
            reveal_strlit("Other");
            assert(receives == entry_receives(ov[j as int], app@, index@, route_other));
        }
        if receives {
            let mut e = entries.remove(j);
            match &mut e {
                MenuEntry::Xdg(section) => {
                    insert_app_sorted(&mut section.applications, app);
                },
                MenuEntry::Custom(_) => {},
            }
            entries.insert(j, e);
            proof {
                assert(entries@[j as int].deep_view() =~~= entry_insert(
                    ov[j as int],
                    app@,
                    index@,
                    route_other,
                ));
                assert forall|k: int| j + 1 <= k < n implies entries@[k].deep_view() == ov[k] by {}
            }
        }
        j = j + 1;
    }
    proof {
        assert(entries.deep_view() =~~= slot_insert(ov, app@, index@, route_other));
    }
}

impl Menu {
    /// Classifies one discovered record into the menu: it is inserted, by
    /// sorted keyed insertion, into every section any of its tags routes
    /// to, in all three slots; when no tag is known at all it goes to the
    /// center slot's catch-all section instead.
    pub fn insert_application(&mut self, app: &MenuApplication)
        ensures
            final(self)@ == menu_insert(old(self)@, app@),
    {
        let overflow = !app_has_route(&self.index, app);
        slot_insert_exec(&mut self.start, app, &self.index, false);
        slot_insert_exec(&mut self.center, app, &self.index, overflow);
        slot_insert_exec(&mut self.end, app, &self.index, false);
        proof {
            assert(self@ =~= menu_insert(old(self)@, app@));
        }
    }

    /// Merges a whole discovery batch into the menu, in delivery order.
    pub fn insert_batch(&mut self, apps: &Vec<MenuApplication>)
        ensures
            final(self)@ == menu_feed(old(self)@, apps.deep_view()),
    {
        let ghost rs = apps.deep_view();
        let n = apps.len();
        let mut i: usize = 0;
        proof {
            assert(rs.take(0) =~= Seq::<AppView>::empty());
        }
        while i < n
            invariant
                i <= n,
                n == apps@.len(),
                rs == apps.deep_view(),
                self@ == menu_feed(old(self)@, rs.take(i as int)),
                self.index@ == old(self).index@,
            decreases n - i,
        {
            self.insert_application(&apps[i]);
            proof {
                assert(rs.take(i as int).push(rs[i as int]) =~= rs.take(i as int + 1));
                lemma_menu_feed_snoc(old(self)@, rs.take(i as int), rs[i as int]);
            }
            i = i + 1;
        }
        proof {
            assert(rs.take(n as int) =~= rs);
        }
    }
}

/// A section's applications are strictly sorted by label, so labels are
/// unique within a section.
pub open spec fn section_sorted(apps: Seq<AppView>) -> bool {
    forall|i: int, j: int| 0 <= i < j < apps.len() ==> lex_lt(apps[i].label, apps[j].label)
}

/// A well-formed entry: a section's applications are sorted.
pub open spec fn entry_wf(e: EntryView) -> bool {
    entry_is_section(e) ==> section_sorted(entry_apps(e))
}

/// A well-formed slot: every entry is well-formed and no two entries share
/// a label.
pub open spec fn slot_wf(s: Seq<EntryView>) -> bool {
    (forall|i: int| 0 <= i < s.len() ==> entry_wf(s[i])) && (forall|i: int, j: int|
        0 <= i < j < s.len() ==> entry_label(s[i]) != entry_label(s[j]))
}

/// A well-formed menu: all three slots are well-formed.
pub open spec fn menu_wf(m: MenuView) -> bool {
    slot_wf(m.start) && slot_wf(m.center) && slot_wf(m.end)
}

/// A slot none of whose entries holds any application yet.
pub open spec fn slot_fresh(s: Seq<EntryView>) -> bool {
    forall|i: int| 0 <= i < s.len() ==> entry_apps(s[i]).len() == 0
}

/// A menu none of whose sections holds any application yet, as built from
/// configuration before the first discovery batch.
pub open spec fn menu_fresh(m: MenuView) -> bool {
    slot_fresh(m.start) && slot_fresh(m.center) && slot_fresh(m.end)
}

/// Feeding a batch extended by one record is feeding the batch, then
/// classifying the record.
pub proof fn lemma_menu_feed_snoc(m: MenuView, rs: Seq<AppView>, a: AppView)
    ensures
        menu_feed(m, rs.push(a)) == menu_insert(menu_feed(m, rs), a),
    decreases rs.len(),
{
    if rs.len() == 0 {
        assert(rs.push(a).drop_first() =~= rs);
        assert(rs.push(a)[0] == a);
        assert(menu_feed(m, rs.push(a)) == menu_feed(menu_insert(m, a), rs));
        assert(menu_feed(menu_insert(m, a), rs) == menu_insert(m, a));
        assert(menu_feed(m, rs) == m);
    } else {
        assert(rs.push(a)[0] == rs[0]);
        assert(rs.push(a).drop_first() =~= rs.drop_first().push(a));
        assert(menu_feed(m, rs.push(a)) == menu_feed(
            menu_insert(m, rs[0]),
            rs.drop_first().push(a),
        ));
        lemma_menu_feed_snoc(menu_insert(m, rs[0]), rs.drop_first(), a);
        assert(menu_feed(m, rs) == menu_feed(menu_insert(m, rs[0]), rs.drop_first()));
    }
}

} // verus!
