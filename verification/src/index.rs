//! The category index: the static, ordered mapping from category tag to the
//! section labels that claim it. Built once from configuration by folding
//! the declared sections in order; read-only afterwards.

use vstd::prelude::*;
use crate::order::str_eq;

verus! {

/// One route: a category tag and the section labels that claim it, in
/// declaration order.
#[derive(Debug, Clone, PartialEq)]
pub struct CategoryRoute {
    pub tag: String,
    pub sections: Vec<String>,
}

/// The mathematical value of a [`CategoryRoute`].
#[verifier::ext_equal]
pub ghost struct RouteView {
    pub tag: Seq<char>,
    pub sections: Seq<Seq<char>>,
}

impl View for CategoryRoute {
    type V = RouteView;

    open spec fn view(&self) -> RouteView {
        RouteView { tag: self.tag@, sections: self.sections.deep_view() }
    }
}

impl DeepView for CategoryRoute {
    type V = RouteView;

    open spec fn deep_view(&self) -> RouteView {
        self.view()
    }
}

/// The section labels the first route for `tag` claims, or `None` when no
/// route carries the tag.
pub open spec fn route_lookup(iv: Seq<RouteView>, tag: Seq<char>) -> Option<Seq<Seq<char>>>
    decreases iv.len(),
{
    if iv.len() == 0 {
        None
    } else if iv[0].tag == tag {
        Some(iv[0].sections)
    } else {
        route_lookup(iv.drop_first(), tag)
    }
}

/// The index after registering that section `label` claims `tag`: the label
/// is appended to the first route for the tag, or a new route is appended.
pub open spec fn route_register(iv: Seq<RouteView>, tag: Seq<char>, label: Seq<char>) -> Seq<
    RouteView,
>
    decreases iv.len(),
{
    if iv.len() == 0 {
        seq![RouteView { tag: tag, sections: seq![label] }]
    } else if iv[0].tag == tag {
        seq![RouteView { tag: iv[0].tag, sections: iv[0].sections.push(label) }] + iv.drop_first()
    } else {
        seq![iv[0]] + route_register(iv.drop_first(), tag, label)
    }
}

/// The static tag-to-sections mapping.
#[derive(Debug, Clone, PartialEq)]
pub struct CategoryIndex {
    pub routes: Vec<CategoryRoute>,
}

impl View for CategoryIndex {
    type V = Seq<RouteView>;

    open spec fn view(&self) -> Seq<RouteView> {
        self.routes.deep_view()
    }
}

impl CategoryIndex {
    /// An index with no routes.
    pub fn new() -> (r: Self)
        ensures
            r@ == Seq::<RouteView>::empty(),
    {
        let r = CategoryIndex { routes: Vec::new() };
        proof {
            assert(r@ =~= Seq::<RouteView>::empty());
        }
        r
    }

    /// The position of the first route for `tag`, or the number of routes
    /// when none carries it.
    fn find_route(&self, tag: &str) -> (i: usize)
        ensures
            i <= self.routes@.len(),
            forall|k: int| 0 <= k < i ==> self@[k].tag != tag@,
            i < self.routes@.len() ==> self@[i as int].tag == tag@,
    {
        let n = self.routes.len();
        let mut i: usize = 0;
        while i < n
            invariant
                i <= n,
                n == self.routes@.len(),
                forall|k: int| 0 <= k < i ==> self@[k].tag != tag@,
            decreases n - i,
        {
            if str_eq(self.routes[i].tag.as_str(), tag) {
                proof {
                    assert(self@[i as int].tag == tag@);
                }
                return i;
            }
            i = i + 1;
        }
        i
    }

    /// The section labels claimed for `tag`, or `None` when the tag routes
    /// nowhere.
    pub fn lookup(&self, tag: &str) -> (r: Option<&Vec<String>>)
        ensures
            match r {
                Some(sections) => route_lookup(self@, tag@) == Some(sections.deep_view()),
                None => route_lookup(self@, tag@) is None,
            },
    {
        let i = self.find_route(tag);
        proof {
            lemma_route_lookup_at(self@, tag@, i as int);
        }
        if i < self.routes.len() {
            Some(&self.routes[i].sections)
        } else {
            None
        }
    }

    /// Registers that section `label` claims `tag`.
    pub fn register(&mut self, tag: &str, label: &str)
        ensures
            final(self)@ == route_register(old(self)@, tag@, label@),
    {
        let i = self.find_route(tag);
        proof {
            lemma_route_register_at(old(self)@, tag@, label@, i as int);
        }
        if i < self.routes.len() {
            let mut route = self.routes.remove(i);
            route.sections.push(label.to_owned());
            self.routes.insert(i, route);
            proof {
                assert(self@ =~~= old(self)@.update(
                    i as int,
                    RouteView {
                        tag: old(self)@[i as int].tag,
                        sections: old(self)@[i as int].sections.push(label@),
                    },
                ));
            }
        } else {
            self.routes.push(
                CategoryRoute { tag: tag.to_owned(), sections: vec![label.to_owned()] },
            );
            proof {
                assert(self@ =~~= old(self)@.push(
                    RouteView { tag: tag@, sections: seq![label@] },
                ));
            }
        }
    }
}

/// Positional form of [`route_lookup`]: when the first `i` routes miss the
/// tag, the lookup is decided at position `i`.
proof fn lemma_route_lookup_at(iv: Seq<RouteView>, tag: Seq<char>, i: int)
    requires
        0 <= i <= iv.len(),
        forall|k: int| 0 <= k < i ==> iv[k].tag != tag,
        i < iv.len() ==> iv[i].tag == tag,
    ensures
        i < iv.len() ==> route_lookup(iv, tag) == Some(iv[i].sections),
        i == iv.len() ==> route_lookup(iv, tag) is None,
    decreases i,
{
    if i > 0 {
        lemma_route_lookup_at(iv.drop_first(), tag, i - 1);
    }
}

/// Positional form of [`route_register`]: when the first `i` routes miss the
/// tag, registration acts at position `i`.
proof fn lemma_route_register_at(iv: Seq<RouteView>, tag: Seq<char>, label: Seq<char>, i: int)
    requires
        0 <= i <= iv.len(),
        forall|k: int| 0 <= k < i ==> iv[k].tag != tag,
        i < iv.len() ==> iv[i].tag == tag,
    ensures
        i < iv.len() ==> route_register(iv, tag, label) == iv.update(
            i,
            RouteView { tag: iv[i].tag, sections: iv[i].sections.push(label) },
        ),
        i == iv.len() ==> route_register(iv, tag, label) == iv.push(
            RouteView { tag: tag, sections: seq![label] },
        ),
    decreases i,
{
    if i > 0 {
        lemma_route_register_at(iv.drop_first(), tag, label, i - 1);
        if i < iv.len() {
            assert(route_register(iv, tag, label) =~= iv.update(
                i,
                RouteView { tag: iv[i].tag, sections: iv[i].sections.push(label) },
            ));
        } else {
            assert(route_register(iv, tag, label) =~= iv.push(
                RouteView { tag: tag, sections: seq![label] },
            ));
        }
    } else {
        if i < iv.len() {
            assert(route_register(iv, tag, label) =~= iv.update(
                i,
                RouteView { tag: iv[i].tag, sections: iv[i].sections.push(label) },
            ));
        } else {
            assert(iv.len() == 0);
            assert(route_register(iv, tag, label) =~= iv.push(
                RouteView { tag: tag, sections: seq![label] },
            ));
        }
    }
}

} // verus!
