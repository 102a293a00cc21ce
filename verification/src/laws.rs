//! The aggregation laws: idempotent insertion, preservation of sorted
//! order, overflow exclusivity, fan-out, and independence of the final
//! menu from the records' arrival order.

use vstd::prelude::*;
use crate::config::other_label;
use crate::index::RouteView;
use crate::menu::{
    app_matched, app_matches_label, entry_apps, entry_icon, entry_insert, entry_label,
    entry_receives, entry_wf, insert_app_spec, lemma_menu_feed_snoc, menu_feed, menu_fresh,
    menu_insert, menu_wf, section_sorted, slot_insert, slot_wf, tag_routes_to, EntryView, MenuView,
};
use crate::order::{lemma_lex_lt_transitive, lemma_lex_lt_trichotomy, lex_lt};
use crate::records::AppView;

verus! {

/// No two records of the batch share a label; labels are the keys under
/// which sections hold records.
pub open spec fn distinct_labels(rs: Seq<AppView>) -> bool {
    forall|i: int, j: int| 0 <= i < j < rs.len() ==> rs[i].label != rs[j].label
}

proof fn lemma_singleton_contains(a: AppView, x: AppView)
    ensures
        seq![a].contains(x) <==> x == a,
{
    if x == a {
        assert(seq![a][0] == x);
    }
}

proof fn lemma_concat_contains(x: Seq<AppView>, y: Seq<AppView>, e: AppView)
    ensures
        (x + y).contains(e) <==> x.contains(e) || y.contains(e),
{
    vstd::seq_lib::lemma_seq_concat_contains_all_elements(x, y, e);
}

proof fn lemma_sorted_drop_first(s: Seq<AppView>)
    requires
        section_sorted(s),
        s.len() > 0,
    ensures
        section_sorted(s.drop_first()),
        forall|k: int| 0 <= k < s.drop_first().len() ==> lex_lt(
            s[0].label,
            #[trigger] s.drop_first()[k].label,
        ),
{
    assert forall|i: int, j: int| 0 <= i < j < s.drop_first().len() implies lex_lt(
        s.drop_first()[i].label,
        s.drop_first()[j].label,
    ) by {
        assert(s.drop_first()[i] == s[i + 1]);
        assert(s.drop_first()[j] == s[j + 1]);
    }
    assert forall|k: int| 0 <= k < s.drop_first().len() implies lex_lt(
        s[0].label,
        s.drop_first()[k].label,
    ) by {
        assert(s.drop_first()[k] == s[k + 1]);
    }
}

/// What a section holds after an insertion: the inserted record, and every
/// record it held before whose label the insertion did not replace.
pub proof fn lemma_insert_app_membership(s: Seq<AppView>, a: AppView, x: AppView)
    requires
        section_sorted(s),
    ensures
        insert_app_spec(s, a).contains(x) <==> (x == a || (s.contains(x) && x.label != a.label)),
    decreases s.len(),
{
    let r = insert_app_spec(s, a);
    if s.len() == 0 {
        lemma_singleton_contains(a, x);
        assert(!s.contains(x));
    } else {
        let h = s[0];
        let rest = s.drop_first();
        lemma_sorted_drop_first(s);
        assert(s =~= seq![h] + rest);
        lemma_concat_contains(seq![h], rest, x);
        lemma_singleton_contains(h, x);
        lemma_lex_lt_trichotomy(h.label, a.label);
        if lex_lt(h.label, a.label) {
            lemma_insert_app_membership(rest, a, x);
            assert(r == seq![h] + insert_app_spec(rest, a));
            lemma_concat_contains(seq![h], insert_app_spec(rest, a), x);
        } else if h.label == a.label {
            assert(r == seq![a] + rest);
            lemma_concat_contains(seq![a], rest, x);
            lemma_singleton_contains(a, x);
            if rest.contains(x) {
                let k = choose|k: int| 0 <= k < rest.len() && rest[k] == x;
                assert(lex_lt(h.label, rest[k].label));
                lemma_lex_lt_trichotomy(h.label, x.label);
            }
        } else {
            assert(r == seq![a] + s);
            lemma_concat_contains(seq![a], s, x);
            lemma_singleton_contains(a, x);
            if s.contains(x) {
                let k = choose|k: int| 0 <= k < s.len() && s[k] == x;
                if k == 0 {
                    lemma_lex_lt_trichotomy(a.label, x.label);
                } else {
                    assert(rest[k - 1] == s[k]);
                    assert(lex_lt(h.label, x.label));
                    lemma_lex_lt_transitive(a.label, h.label, x.label);
                    lemma_lex_lt_trichotomy(a.label, x.label);
                }
            }
        }
    }
}

/// Sorted order is an invariant of insertion: a sorted section stays
/// sorted, so its labels are lexicographically increasing after every
/// insertion.
pub proof fn lemma_insert_app_sorted(s: Seq<AppView>, a: AppView)
    requires
        section_sorted(s),
    ensures
        section_sorted(insert_app_spec(s, a)),
    decreases s.len(),
{
    let r = insert_app_spec(s, a);
    if s.len() == 0 {
    } else {
        let h = s[0];
        let rest = s.drop_first();
        lemma_sorted_drop_first(s);
        lemma_lex_lt_trichotomy(h.label, a.label);
        if lex_lt(h.label, a.label) {
            lemma_insert_app_sorted(rest, a);
            let tail = insert_app_spec(rest, a);
            assert(r == seq![h] + tail);
            assert forall|i: int, j: int| 0 <= i < j < r.len() implies lex_lt(
                r[i].label,
                r[j].label,
            ) by {
                if i == 0 {
                    assert(r[j] == tail[j - 1]);
                    lemma_insert_app_membership(rest, a, tail[j - 1]);
                    assert(tail.contains(tail[j - 1]));
                    if tail[j - 1] == a {
                    } else {
                        let k = choose|k: int| 0 <= k < rest.len() && rest[k] == tail[j - 1];
                        assert(lex_lt(h.label, rest[k].label));
                    }
                } else {
                    assert(r[i] == tail[i - 1]);
                    assert(r[j] == tail[j - 1]);
                }
            }
        } else if h.label == a.label {
            assert(r == seq![a] + rest);
            assert forall|i: int, j: int| 0 <= i < j < r.len() implies lex_lt(
                r[i].label,
                r[j].label,
            ) by {
                if i == 0 {
                    assert(r[j] == rest[j - 1]);
                    assert(lex_lt(h.label, rest[j - 1].label));
                } else {
                    assert(r[i] == rest[i - 1]);
                    assert(r[j] == rest[j - 1]);
                }
            }
        } else {
            assert(r == seq![a] + s);
            assert forall|i: int, j: int| 0 <= i < j < r.len() implies lex_lt(
                r[i].label,
                r[j].label,
            ) by {
                if i == 0 {
                    assert(r[j] == s[j - 1]);
                    if j == 1 {
                    } else {
                        assert(lex_lt(h.label, s[j - 1].label));
                        lemma_lex_lt_transitive(a.label, h.label, s[j - 1].label);
                    }
                } else {
                    assert(r[i] == s[i - 1]);
                    assert(r[j] == s[j - 1]);
                }
            }
        }
    }
}

/// Inserting the same record twice leaves what one insertion leaves: one
/// entry under the record's label, holding the latest field values.
pub proof fn lemma_insert_app_idempotent(s: Seq<AppView>, a: AppView)
    ensures
        insert_app_spec(insert_app_spec(s, a), a) == insert_app_spec(s, a),
    decreases s.len(),
{
    let r = insert_app_spec(s, a);
    lemma_lex_lt_trichotomy(a.label, a.label);
    if s.len() == 0 {
        assert(r == seq![a]);
        assert(r[0] == a);
        assert(insert_app_spec(r, a) =~= seq![a] + r.drop_first());
        assert(insert_app_spec(r, a) =~= r);
    } else {
        let h = s[0];
        let rest = s.drop_first();
        if lex_lt(h.label, a.label) {
            lemma_insert_app_idempotent(rest, a);
            let tail = insert_app_spec(rest, a);
            assert(r == seq![h] + tail);
            assert(r[0] == h);
            assert(r.drop_first() =~= tail);
            assert(insert_app_spec(r, a) == seq![h] + insert_app_spec(tail, a));
        } else if h.label == a.label {
            assert(r == seq![a] + rest);
            assert(r[0] == a);
            assert(r.drop_first() =~= rest);
            assert(insert_app_spec(r, a) =~= seq![a] + rest);
        } else {
            assert(r == seq![a] + s);
            assert(r[0] == a);
            assert(r.drop_first() =~= s);
            assert(insert_app_spec(r, a) =~= seq![a] + s);
        }
    }
}

/// Two sorted sections holding the same records are the same section, in
/// the same order.
pub proof fn lemma_sorted_same_elements(x: Seq<AppView>, y: Seq<AppView>)
    requires
        section_sorted(x),
        section_sorted(y),
        forall|a: AppView| x.contains(a) <==> y.contains(a),
    ensures
        x =~= y,
    decreases x.len(),
{
    if x.len() == 0 {
        if y.len() > 0 {
            assert(y.contains(y[0]));
        }
    } else if y.len() == 0 {
        assert(x.contains(x[0]));
    } else {
        lemma_sorted_drop_first(x);
        lemma_sorted_drop_first(y);
        assert(x.contains(x[0]));
        assert(y.contains(y[0]));
        let i = choose|i: int| 0 <= i < y.len() && y[i] == x[0];
        let j = choose|j: int| 0 <= j < x.len() && x[j] == y[0];
        if i > 0 && j > 0 {
            assert(lex_lt(y[0].label, y[i].label));
            assert(lex_lt(x[0].label, x[j].label));
            lemma_lex_lt_transitive(x[0].label, y[0].label, x[0].label);
            lemma_lex_lt_trichotomy(x[0].label, x[0].label);
            assert(false);
        }
        assert(x[0] == y[0]);
        assert forall|a: AppView| x.drop_first().contains(a) <==> y.drop_first().contains(
            a,
        ) by {
            if x.drop_first().contains(a) {
                let k = choose|k: int| 0 <= k < x.drop_first().len() && x.drop_first()[k] == a;
                assert(x.drop_first()[k] == x[k + 1]);
                assert(x.contains(a));
                assert(lex_lt(x[0].label, a.label));
                lemma_lex_lt_trichotomy(x[0].label, a.label);
                assert(a != y[0]);
                let p = choose|p: int| 0 <= p < y.len() && y[p] == a;
                assert(p != 0);
                assert(y.drop_first()[p - 1] == a);
                assert(y.drop_first().contains(a));
            }
            if y.drop_first().contains(a) {
                let k = choose|k: int| 0 <= k < y.drop_first().len() && y.drop_first()[k] == a;
                assert(y.drop_first()[k] == y[k + 1]);
                assert(y.contains(a));
                assert(lex_lt(y[0].label, a.label));
                lemma_lex_lt_trichotomy(y[0].label, a.label);
                assert(a != x[0]);
                let p = choose|p: int| 0 <= p < x.len() && x[p] == a;
                assert(p != 0);
                assert(x.drop_first()[p - 1] == a);
                assert(x.drop_first().contains(a));
            }
        }
        lemma_sorted_same_elements(x.drop_first(), y.drop_first());
        assert forall|k: int| 0 <= k < x.len() implies x[k] == y[k] by {
            if k > 0 {
                assert(x.drop_first()[k - 1] == x[k]);
                assert(y.drop_first()[k - 1] == y[k]);
            }
        }
    }
}

/// One of the three slots, selected by number: start, center, end.
pub open spec fn menu_slot(m: MenuView, w: int) -> Seq<EntryView> {
    if w == 0 {
        m.start
    } else if w == 1 {
        m.center
    } else {
        m.end
    }
}

/// Whether a record belongs in the section labelled `label` of slot `w`:
/// one of its tags routes to the label, or the record matched nowhere and
/// the label is the reserved catch-all label of the center slot.
pub open spec fn receives_in(iv: Seq<RouteView>, x: AppView, label: Seq<char>, w: int) -> bool {
    app_matches_label(iv, x, label) || (w == 1 && !app_matched(iv, x) && label == other_label())
}

/// What one section holds after a fresh menu is fed a batch of records
/// with pairwise distinct labels: exactly the records that belong in it,
/// in sorted label order, under the section's unchanged label and icon.
pub proof fn lemma_feed_characterization(m: MenuView, rs: Seq<AppView>, w: int, j: int)
    requires
        menu_wf(m),
        menu_fresh(m),
        distinct_labels(rs),
        0 <= w < 3,
        0 <= j < menu_slot(m, w).len(),
    ensures
        menu_feed(m, rs).index == m.index,
        menu_slot(menu_feed(m, rs), w).len() == menu_slot(m, w).len(),
        entry_label(menu_slot(menu_feed(m, rs), w)[j]) == entry_label(menu_slot(m, w)[j]),
        entry_icon(menu_slot(menu_feed(m, rs), w)[j]) == entry_icon(menu_slot(m, w)[j]),
        menu_slot(menu_feed(m, rs), w)[j] is Xdg <==> menu_slot(m, w)[j] is Xdg,
        menu_slot(m, w)[j] is Custom ==> menu_slot(menu_feed(m, rs), w)[j] == menu_slot(m, w)[j],
        section_sorted(entry_apps(menu_slot(menu_feed(m, rs), w)[j])),
        forall|x: AppView|
            entry_apps(menu_slot(menu_feed(m, rs), w)[j]).contains(x) <==> (rs.contains(x)
                && menu_slot(m, w)[j] is Xdg && receives_in(
                m.index,
                x,
                entry_label(menu_slot(m, w)[j]),
                w,
            )),
    decreases rs.len(),
{
    let orig = menu_slot(m, w)[j];
    if rs.len() == 0 {
        assert(menu_feed(m, rs) == m);
        assert(entry_apps(orig).len() == 0);
        assert forall|x: AppView| !entry_apps(orig).contains(x) by {
            if entry_apps(orig).contains(x) {
                let k = choose|k: int|
                    0 <= k < entry_apps(orig).len() && entry_apps(orig)[k] == x;
            }
        }
    } else {
        let rs0 = rs.drop_last();
        let b = rs.last();
        assert(rs0.push(b) =~= rs);
        lemma_menu_feed_snoc(m, rs0, b);
        assert(menu_feed(m, rs) == menu_insert(menu_feed(m, rs0), b));
        assert(distinct_labels(rs0)) by {
            assert forall|p: int, q: int| 0 <= p < q < rs0.len() implies rs0[p].label
                != rs0[q].label by {
                assert(rs0[p] == rs[p]);
                assert(rs0[q] == rs[q]);
            }
        }
        lemma_feed_characterization(m, rs0, w, j);
        let mf0 = menu_feed(m, rs0);
        let iv = m.index;
        let e0 = menu_slot(mf0, w)[j];
        let ro = w == 1 && !app_matched(iv, b);
        assert(menu_slot(menu_insert(mf0, b), w) == slot_insert(menu_slot(mf0, w), b, iv, (if w
            == 1 {
            !app_matched(iv, b)
        } else {
            false
        })));
        let row: bool = if w == 1 {
            !app_matched(iv, b)
        } else {
            false
        };
        let e1 = menu_slot(menu_feed(m, rs), w)[j];
        assert(e1 == entry_insert(e0, b, iv, row));
        let lbl = entry_label(orig);
        assert(entry_label(e0) == lbl);
        assert(rs.contains(b)) by {
            assert(rs[rs.len() - 1] == b);
        }
        assert forall|x: AppView| rs0.contains(x) implies rs.contains(x) && x.label != b.label by {
            let k = choose|k: int| 0 <= k < rs0.len() && rs0[k] == x;
            assert(rs[k] == x);
        }
        if entry_receives(e0, b, iv, row) {
            assert(e0 is Xdg);
            assert(receives_in(iv, b, lbl, w));
            let apps0 = entry_apps(e0);
            assert(entry_apps(e1) == insert_app_spec(apps0, b));
            lemma_insert_app_sorted(apps0, b);
            assert forall|x: AppView|
                entry_apps(e1).contains(x) <==> (rs.contains(x) && orig is Xdg && receives_in(
                    iv,
                    x,
                    lbl,
                    w,
                )) by {
                lemma_insert_app_membership(apps0, b, x);
                assert(entry_apps(menu_slot(menu_feed(m, rs0), w)[j]).contains(x) <==> (
                rs0.contains(x) && menu_slot(m, w)[j] is Xdg && receives_in(
                    m.index,
                    x,
                    entry_label(menu_slot(m, w)[j]),
                    w,
                )));
                assert(apps0.contains(x) <==> (rs0.contains(x) && orig is Xdg && receives_in(
                    iv,
                    x,
                    lbl,
                    w,
                )));
                if entry_apps(e1).contains(x) {
                    if x == b {
                        assert(rs.contains(x) && orig is Xdg && receives_in(iv, x, lbl, w));
                    } else {
                        assert(apps0.contains(x));
                        assert(rs0.contains(x));
                        assert(rs.contains(x) && orig is Xdg && receives_in(iv, x, lbl, w));
                    }
                }
                if rs.contains(x) && orig is Xdg && receives_in(iv, x, lbl, w) {
                    let k = choose|k: int| 0 <= k < rs.len() && rs[k] == x;
                    if k < rs.len() - 1 {
                        assert(rs0[k] == x);
                        assert(rs0.contains(x));
                        assert(apps0.contains(x));
                        assert(x.label != b.label);
                        assert(entry_apps(e1).contains(x));
                    } else {
                        assert(x == b);
                        assert(entry_apps(e1).contains(x));
                    }
                }
            }
        } else {
            assert(e1 == e0);
            assert forall|x: AppView|
                entry_apps(e1).contains(x) <==> (rs.contains(x) && orig is Xdg && receives_in(
                    iv,
                    x,
                    lbl,
                    w,
                )) by {
                assert(entry_apps(menu_slot(menu_feed(m, rs0), w)[j]).contains(x) <==> (
                rs0.contains(x) && menu_slot(m, w)[j] is Xdg && receives_in(
                    m.index,
                    x,
                    entry_label(menu_slot(m, w)[j]),
                    w,
                )));
                if rs.contains(x) && orig is Xdg && receives_in(iv, x, lbl, w) {
                    let k = choose|k: int| 0 <= k < rs.len() && rs[k] == x;
                    if k < rs.len() - 1 {
                        assert(rs0[k] == x);
                        assert(rs0.contains(x));
                    } else {
                        assert(x == b);
                        assert(e0 is Xdg);
                        assert(!receives_in(iv, b, lbl, w));
                        assert(false);
                    }
                }
            }
        }
    }
}

/// Classification does not change an entry's label.
proof fn lemma_entry_insert_label(e: EntryView, a: AppView, iv: Seq<RouteView>, ro: bool)
    ensures
        entry_label(entry_insert(e, a, iv, ro)) == entry_label(e),
        entry_insert(e, a, iv, ro) is Xdg <==> e is Xdg,
{
}

/// Classification preserves a slot's well-formedness.
proof fn lemma_slot_insert_wf(s: Seq<EntryView>, a: AppView, iv: Seq<RouteView>, ro: bool)
    requires
        slot_wf(s),
    ensures
        slot_wf(slot_insert(s, a, iv, ro)),
{
    let r = slot_insert(s, a, iv, ro);
    assert forall|i: int| 0 <= i < r.len() implies entry_wf(r[i]) by {
        assert(r[i] == entry_insert(s[i], a, iv, ro));
        if entry_receives(s[i], a, iv, ro) {
            lemma_insert_app_sorted(entry_apps(s[i]), a);
        }
    }
    assert forall|i: int, j: int| 0 <= i < j < r.len() implies entry_label(r[i]) != entry_label(
        r[j],
    ) by {
        assert(r[i] == entry_insert(s[i], a, iv, ro));
        assert(r[j] == entry_insert(s[j], a, iv, ro));
        lemma_entry_insert_label(s[i], a, iv, ro);
        lemma_entry_insert_label(s[j], a, iv, ro);
    }
}

/// Sorted order is kept by every classification step: a well-formed menu
/// stays well-formed, so each section's labels are lexicographically
/// increasing after every insertion.
pub proof fn lemma_menu_insert_wf(m: MenuView, a: AppView)
    requires
        menu_wf(m),
    ensures
        menu_wf(menu_insert(m, a)),
{
    let overflow = !app_matched(m.index, a);
    lemma_slot_insert_wf(m.start, a, m.index, false);
    lemma_slot_insert_wf(m.center, a, m.index, overflow);
    lemma_slot_insert_wf(m.end, a, m.index, false);
}

/// A well-formed menu stays well-formed under a whole batch.
pub proof fn lemma_menu_feed_wf(m: MenuView, rs: Seq<AppView>)
    requires
        menu_wf(m),
    ensures
        menu_wf(menu_feed(m, rs)),
    decreases rs.len(),
{
    if rs.len() > 0 {
        lemma_menu_insert_wf(m, rs[0]);
        lemma_menu_feed_wf(menu_insert(m, rs[0]), rs.drop_first());
    }
}

/// Classifying the same record twice leaves the menu of one
/// classification: each section holds one entry for the record's label,
/// with the latest field values.
pub proof fn lemma_menu_insert_idempotent(m: MenuView, a: AppView)
    ensures
        menu_insert(menu_insert(m, a), a) == menu_insert(m, a),
{
    let m1 = menu_insert(m, a);
    assert(m1.index == m.index);
    assert forall|s: Seq<EntryView>, ro: bool|
        #[trigger] slot_insert(slot_insert(s, a, m.index, ro), a, m.index, ro) == slot_insert(
            s,
            a,
            m.index,
            ro,
        ) by {
        let r1 = slot_insert(s, a, m.index, ro);
        let r2 = slot_insert(r1, a, m.index, ro);
        assert forall|i: int| 0 <= i < s.len() implies r2[i] == r1[i] by {
            assert(r1[i] == entry_insert(s[i], a, m.index, ro));
            assert(r2[i] == entry_insert(r1[i], a, m.index, ro));
            lemma_entry_insert_label(s[i], a, m.index, ro);
            if entry_receives(s[i], a, m.index, ro) {
                lemma_insert_app_idempotent(entry_apps(s[i]), a);
                assert(r2[i] =~= r1[i]);
            }
        }
        assert(r2 =~= r1);
    }
    assert(menu_insert(m1, a) =~= m1);
}

/// Overflow exclusivity: after a fresh, well-formed menu is fed a batch,
/// a record of the batch stands in the center slot's catch-all section
/// exactly when none of its category tags is claimed by any section of
/// any slot.
pub proof fn lemma_overflow_exclusivity(m: MenuView, rs: Seq<AppView>, a: AppView, j: int)
    requires
        menu_wf(m),
        menu_fresh(m),
        distinct_labels(rs),
        rs.contains(a),
        0 <= j < m.center.len(),
        m.center[j] is Xdg,
        entry_label(m.center[j]) == other_label(),
        forall|t: Seq<char>| !tag_routes_to(m.index, t, other_label()),
    ensures
        entry_apps(menu_feed(m, rs).center[j]).contains(a) <==> !app_matched(m.index, a),
{
    lemma_feed_characterization(m, rs, 1, j);
    assert(menu_slot(m, 1) == m.center);
    assert(menu_slot(menu_feed(m, rs), 1) == menu_feed(m, rs).center);
    assert(!app_matches_label(m.index, a, other_label())) by {
        if app_matches_label(m.index, a, other_label()) {
            let k = choose|k: int|
                0 <= k < a.categories.len() && tag_routes_to(
                    m.index,
                    a.categories[k],
                    other_label(),
                );
            assert(!tag_routes_to(m.index, a.categories[k], other_label()));
        }
    }
    assert(receives_in(m.index, a, other_label(), 1) == !app_matched(m.index, a));
}

/// Fan-out: a record carrying a tag that two sections claim, one in the
/// start slot and one in the end slot, stands in both sections after one
/// classification.
pub proof fn lemma_fan_out(m: MenuView, a: AppView, t: Seq<char>, i: int, j: int)
    requires
        menu_wf(m),
        a.categories.contains(t),
        0 <= i < m.start.len(),
        m.start[i] is Xdg,
        tag_routes_to(m.index, t, entry_label(m.start[i])),
        0 <= j < m.end.len(),
        m.end[j] is Xdg,
        tag_routes_to(m.index, t, entry_label(m.end[j])),
    ensures
        entry_apps(menu_insert(m, a).start[i]).contains(a),
        entry_apps(menu_insert(m, a).end[j]).contains(a),
{
    let k = choose|k: int| 0 <= k < a.categories.len() && a.categories[k] == t;
    assert(app_matches_label(m.index, a, entry_label(m.start[i]))) by {
        assert(tag_routes_to(m.index, a.categories[k], entry_label(m.start[i])));
    }
    assert(app_matches_label(m.index, a, entry_label(m.end[j]))) by {
        assert(tag_routes_to(m.index, a.categories[k], entry_label(m.end[j])));
    }
    assert(menu_insert(m, a).start[i] == entry_insert(m.start[i], a, m.index, false));
    assert(menu_insert(m, a).end[j] == entry_insert(m.end[j], a, m.index, false));
    assert(entry_receives(m.start[i], a, m.index, false));
    assert(entry_receives(m.end[j], a, m.index, false));
    lemma_insert_app_membership(entry_apps(m.start[i]), a, a);
    lemma_insert_app_membership(entry_apps(m.end[j]), a, a);
}

/// Arrival-order independence: feeding a fresh, well-formed menu the same
/// records, with pairwise distinct labels, in any two orders yields the
/// same menu, contents and order alike.
pub proof fn lemma_arrival_order_independence(m: MenuView, rs1: Seq<AppView>, rs2: Seq<AppView>)
    requires
        menu_wf(m),
        menu_fresh(m),
        distinct_labels(rs1),
        rs1.to_multiset() == rs2.to_multiset(),
    ensures
        menu_feed(m, rs1) == menu_feed(m, rs2),
{
    broadcast use vstd::seq_lib::group_to_multiset_ensures;

    assert(rs1.no_duplicates()) by {
        assert forall|p: int, q: int|
            (0 <= p < rs1.len() && 0 <= q < rs1.len() && p != q) implies rs1[p] != rs1[q] by {
            if rs1[p] == rs1[q] {
                if p < q {
                    assert(rs1[p].label != rs1[q].label);
                } else {
                    assert(rs1[q].label != rs1[p].label);
                }
            }
        }
    }
    rs1.lemma_multiset_has_no_duplicates();
    rs2.lemma_multiset_has_no_duplicates_conv();
    assert forall|x: AppView| rs1.contains(x) <==> rs2.contains(x) by {
        assert(rs1.contains(x) <==> rs1.to_multiset().count(x) > 0);
        assert(rs2.contains(x) <==> rs2.to_multiset().count(x) > 0);
    }
    assert(distinct_labels(rs2)) by {
        assert forall|p: int, q: int| 0 <= p < q < rs2.len() implies rs2[p].label
            != rs2[q].label by {
            if rs2[p].label == rs2[q].label {
                assert(rs2[p] != rs2[q]);
                assert(rs2.contains(rs2[p]));
                assert(rs2.contains(rs2[q]));
                assert(rs1.contains(rs2[p]));
                assert(rs1.contains(rs2[q]));
                let p1 = choose|p1: int| 0 <= p1 < rs1.len() && rs1[p1] == rs2[p];
                let q1 = choose|q1: int| 0 <= q1 < rs1.len() && rs1[q1] == rs2[q];
                assert(p1 != q1);
                if p1 < q1 {
                    assert(rs1[p1].label != rs1[q1].label);
                } else {
                    assert(rs1[q1].label != rs1[p1].label);
                }
                assert(false);
            }
        }
    }
    let f1 = menu_feed(m, rs1);
    let f2 = menu_feed(m, rs2);
    lemma_feed_len(m, rs1);
    lemma_feed_len(m, rs2);
    lemma_feed_index(m, rs1);
    lemma_feed_index(m, rs2);
    assert forall|w: int, j: int| 0 <= w < 3 && 0 <= j < menu_slot(m, w).len() implies menu_slot(
        f1,
        w,
    )[j] == menu_slot(f2, w)[j] by {
        lemma_feed_characterization(m, rs1, w, j);
        lemma_feed_characterization(m, rs2, w, j);
        let orig = menu_slot(m, w)[j];
        let e1 = menu_slot(f1, w)[j];
        let e2 = menu_slot(f2, w)[j];
        if orig is Custom {
            assert(e1 == orig);
            assert(e2 == orig);
        } else {
            assert forall|x: AppView| entry_apps(e1).contains(x) <==> entry_apps(e2).contains(
                x,
            ) by {
                assert(entry_apps(menu_slot(menu_feed(m, rs1), w)[j]).contains(x) <==> (
                rs1.contains(x) && menu_slot(m, w)[j] is Xdg && receives_in(
                    m.index,
                    x,
                    entry_label(menu_slot(m, w)[j]),
                    w,
                )));
                assert(entry_apps(menu_slot(menu_feed(m, rs2), w)[j]).contains(x) <==> (
                rs2.contains(x) && menu_slot(m, w)[j] is Xdg && receives_in(
                    m.index,
                    x,
                    entry_label(menu_slot(m, w)[j]),
                    w,
                )));
            }
            lemma_sorted_same_elements(entry_apps(e1), entry_apps(e2));
            assert(e1 is Xdg);
            assert(e2 is Xdg);
            assert(entry_label(e1) == entry_label(e2));
            assert(entry_icon(e1) == entry_icon(e2));
            assert(entry_apps(e1) == entry_apps(e2));
            assert(e1 =~= e2);
        }
    }
    assert forall|k: int| 0 <= k < f1.start.len() implies f1.start[k] == f2.start[k] by {
        assert(menu_slot(f1, 0)[k] == menu_slot(f2, 0)[k]);
    }
    assert forall|k: int| 0 <= k < f1.center.len() implies f1.center[k] == f2.center[k] by {
        assert(menu_slot(f1, 1)[k] == menu_slot(f2, 1)[k]);
    }
    assert forall|k: int| 0 <= k < f1.end.len() implies f1.end[k] == f2.end[k] by {
        assert(menu_slot(f1, 2)[k] == menu_slot(f2, 2)[k]);
    }
    assert(f1.start =~= f2.start);
    assert(f1.center =~= f2.center);
    assert(f1.end =~= f2.end);
    assert(f1 =~= f2);
}

/// Feeding a batch does not change the slots' lengths or the index.
proof fn lemma_feed_len(m: MenuView, rs: Seq<AppView>)
    ensures
        menu_feed(m, rs).start.len() == m.start.len(),
        menu_feed(m, rs).center.len() == m.center.len(),
        menu_feed(m, rs).end.len() == m.end.len(),
    decreases rs.len(),
{
    if rs.len() > 0 {
        lemma_feed_len(menu_insert(m, rs[0]), rs.drop_first());
    }
}

/// Feeding a batch does not change the category index.
proof fn lemma_feed_index(m: MenuView, rs: Seq<AppView>)
    ensures
        menu_feed(m, rs).index == m.index,
    decreases rs.len(),
{
    if rs.len() > 0 {
        lemma_feed_index(menu_insert(m, rs[0]), rs.drop_first());
    }
}

} // verus!
