//! Application records: the immutable value data produced once per
//! discovered application, and their construction from desktop-entry
//! attributes.

use vstd::prelude::*;
use crate::text::{categories_of, split_categories, truncate_label, truncated_label};
use crate::order::str_eq;

verus! {

/// One discovered application: its display label (already truncated), the
/// file name used to launch it, and its raw category tags.
#[derive(Debug, Clone, PartialEq)]
pub struct MenuApplication {
    pub label: String,
    pub file_name: String,
    pub categories: Vec<String>,
}

/// The mathematical value of a [`MenuApplication`].
#[verifier::ext_equal]
pub ghost struct AppView {
    pub label: Seq<char>,
    pub file_name: Seq<char>,
    pub categories: Seq<Seq<char>>,
}

impl View for MenuApplication {
    type V = AppView;

    open spec fn view(&self) -> AppView {
        AppView {
            label: self.label@,
            file_name: self.file_name@,
            categories: self.categories.deep_view(),
        }
    }
}

impl DeepView for MenuApplication {
    type V = AppView;

    open spec fn deep_view(&self) -> AppView {
        self.view()
    }
}

impl MenuApplication {
    /// An independent copy of the record with the same value.
    pub fn duplicate(&self) -> (r: Self)
        ensures
            r@ == self@,
    {
        let mut categories: Vec<String> = Vec::new();
        let n = self.categories.len();
        let mut i: usize = 0;
        while i < n
            invariant
                i <= n,
                n == self.categories@.len(),
                categories@.len() == i,
                forall|k: int| 0 <= k < i ==> categories@[k]@ == self.categories@[k]@,
            decreases n - i,
        {
            categories.push(self.categories[i].clone());
            i = i + 1;
        }
        proof {
            assert forall|k: int| 0 <= k < n implies categories.deep_view()[k]
                == self.categories.deep_view()[k] by {
                assert(categories@[k]@ == self.categories@[k]@);
            }
            assert(categories.deep_view() =~= self.categories.deep_view());
        }
        let r = MenuApplication {
            label: self.label.clone(),
            file_name: self.file_name.clone(),
            categories,
        };
        proof {
            assert(r@ =~= self@);
        }
        r
    }
}

/// The record a desktop entry's attributes give rise to: `None` when the
/// entry is not of type `Application`, has no name, or is marked
/// `NoDisplay=true`; otherwise the record with the truncated name as label
/// and the split `Categories` attribute (defaulted to `Misc`) as tags.
pub open spec fn application_of_attrs(
    file_name: Seq<char>,
    entry_type: Option<Seq<char>>,
    name: Option<Seq<char>>,
    categories: Option<Seq<char>>,
    no_display: Option<Seq<char>>,
    max: int,
) -> Option<AppView> {
    if entry_type != Some("Application"@) {
        None
    } else if name is None {
        None
    } else if no_display == Some("true"@) {
        None
    } else {
        Some(
            AppView {
                label: truncated_label(name->0, max),
                file_name: file_name,
                categories: categories_of(
                    match categories {
                        Some(c) => c,
                        None => "Misc"@,
                    },
                ),
            },
        )
    }
}

/// Builds the application record for one discovered desktop entry from its
/// attributes, or rejects it.
pub fn application_from_attrs(
    file_name: &str,
    entry_type: Option<&str>,
    name: Option<&str>,
    categories: Option<&str>,
    no_display: Option<&str>,
    max_label_length: usize,
) -> (r: Option<MenuApplication>)
    requires
        max_label_length >= 1,
    ensures
        r is Some <==> application_of_attrs(
            file_name@,
            entry_type.deep_view(),
            name.deep_view(),
            categories.deep_view(),
            no_display.deep_view(),
            max_label_length as int,
        ) is Some,
        r matches Some(app) ==> application_of_attrs(
            file_name@,
            entry_type.deep_view(),
            name.deep_view(),
            categories.deep_view(),
            no_display.deep_view(),
            max_label_length as int,
        ) == Some(app@),
{
    let is_application = match entry_type {
        Some(t) => str_eq(t, "Application"),
        None => false,
    };
    if !is_application {
        return None;
    }
    let name_str = match name {
        Some(n) => n,
        None => {
            return None;
        },
    };
    let hidden = match no_display {
        Some(v) => str_eq(v, "true"),
        None => false,
    };
    if hidden {
        return None;
    }
    let raw_categories = match categories {
        Some(c) => c,
        None => "Misc",
    };
    let app = MenuApplication {
        label: truncate_label(name_str, max_label_length),
        file_name: file_name.to_owned(),
        categories: split_categories(raw_categories),
    };
    proof {
        let expected = application_of_attrs(
            file_name@,
            entry_type.deep_view(),
            name.deep_view(),
            categories.deep_view(),
            no_display.deep_view(),
            max_label_length as int,
        );
        assert(expected is Some);
        assert(app@ =~= expected->0);
    }
    Some(app)
}

} // verus!
