//! Label truncation by grapheme clusters, and splitting of raw category
//! attributes on `;` separators.

use vstd::prelude::*;
use unicode_segmentation::UnicodeSegmentation;

verus! {

/// The extended grapheme clusters of a character sequence, in order.
/// Segmentation depends on the characters alone; it is performed by
/// `unicode_segmentation` and only named here.
pub uninterp spec fn graphemes_of(s: Seq<char>) -> Seq<Seq<char>>;

/// Relies on `unicode_segmentation::UnicodeSegmentation::graphemes` (with
/// extended clusters) and `Iterator::count`: the number of grapheme clusters
/// of the string.
#[verifier::external_body]
fn grapheme_count(s: &str) -> (n: usize)
    ensures
        n as nat == graphemes_of(s@).len(),
{
    s.graphemes(true).count()
}

/// Relies on `unicode_segmentation::UnicodeSegmentation::graphemes` (with
/// extended clusters): the concatenation of the first `n` grapheme clusters
/// of the string.
#[verifier::external_body]
fn grapheme_prefix(s: &str, n: usize) -> (r: String)
    requires
        n as nat <= graphemes_of(s@).len(),
    ensures
        r@ == graphemes_of(s@).take(n as int).flatten(),
{
    s.graphemes(true).take(n).collect()
}

/// A label as it is displayed: unchanged while it has at most `max` grapheme
/// clusters, otherwise cut to the first `max - 1` clusters with an ellipsis
/// appended.
pub open spec fn truncated_label(s: Seq<char>, max: int) -> Seq<char> {
    if graphemes_of(s).len() > max {
        graphemes_of(s).take(max - 1).flatten() + seq!['…']
    } else {
        s
    }
}

/// Truncates a display label to at most `max_label_length` grapheme
/// clusters, replacing the removed tail by a single ellipsis marker.
pub fn truncate_label(s: &str, max_label_length: usize) -> (r: String)
    requires
        max_label_length >= 1,
    ensures
        r@ == truncated_label(s@, max_label_length as int),
{
    let count = grapheme_count(s);
    if count > max_label_length {
        let mut r = grapheme_prefix(s, max_label_length - 1);
        r.append("…");
        proof {
            reveal_strlit("…");
            assert("…"@ =~= seq!['…']);
        }
        r
    } else {
        s.to_owned()
    }
}

/// The sequence with all trailing `;` characters removed.
pub open spec fn trim_trailing_semis(s: Seq<char>) -> Seq<char>
    decreases s.len(),
{
    if s.len() > 0 && s.last() == ';' {
        trim_trailing_semis(s.drop_last())
    } else {
        s
    }
}

/// The position of the first `;` in the sequence, or its length when it has
/// none.
pub open spec fn first_semi(s: Seq<char>) -> nat
    decreases s.len(),
{
    if s.len() == 0 {
        0
    } else if s[0] == ';' {
        0
    } else {
        1 + first_semi(s.drop_first())
    }
}

pub proof fn lemma_first_semi_bounds(s: Seq<char>)
    ensures
        first_semi(s) <= s.len(),
        first_semi(s) < s.len() ==> s[first_semi(s) as int] == ';',
        forall|k: int| 0 <= k < first_semi(s) ==> s[k] != ';',
    decreases s.len(),
{
    if s.len() > 0 && s[0] != ';' {
        lemma_first_semi_bounds(s.drop_first());
        assert forall|k: int| 0 <= k < first_semi(s) implies s[k] != ';' by {
            if k > 0 {
                assert(s[k] == s.drop_first()[k - 1]);
            }
        }
    }
}

/// If the first `k` characters are free of `;` and position `k` either ends
/// the sequence or holds a `;`, then `k` is the first `;` position.
proof fn lemma_first_semi_at(s: Seq<char>, k: int)
    requires
        0 <= k <= s.len(),
        forall|j: int| 0 <= j < k ==> s[j] != ';',
        k < s.len() ==> s[k] == ';',
    ensures
        first_semi(s) == k,
    decreases k,
{
    if k > 0 {
        lemma_first_semi_at(s.drop_first(), k - 1);
    }
}

/// The fields of the sequence, separated by `;`: the separators are dropped
/// and empty fields are kept, so the result of splitting an empty sequence
/// is one empty field.
pub open spec fn split_semis(s: Seq<char>) -> Seq<Seq<char>>
    decreases s.len(),
{
    let i = first_semi(s) as int;
    if i >= s.len() {
        seq![s]
    } else {
        seq![s.take(i)] + split_semis(s.skip(i + 1))
    }
}

/// The category tags of a raw `Categories` attribute: the attribute with its
/// trailing `;` separators removed, split on `;`.
pub open spec fn categories_of(s: Seq<char>) -> Seq<Seq<char>> {
    split_semis(trim_trailing_semis(s))
}

/// Splits a raw category attribute into its tags, dropping trailing `;`
/// separators first.
pub fn split_categories(s: &str) -> (r: Vec<String>)
    ensures
        r.deep_view() == categories_of(s@),
{
    let len = s.unicode_len();
    proof {
        assert(s@.take(len as int) =~= s@);
    }
    let mut t: usize = len;
    while t > 0 && s.get_char(t - 1) == ';'
        invariant
            t <= len,
            len == s@.len(),
            trim_trailing_semis(s@) == trim_trailing_semis(s@.take(t as int)),
        decreases t,
    {
        proof {
            assert(s@.take(t as int).last() == ';');
            assert(s@.take(t as int).drop_last() =~= s@.take(t as int - 1));
        }
        t = t - 1;
    }
    proof {
        if t > 0 {
            assert(s@.take(t as int).last() == s@[t as int - 1]);
        }
        assert(trim_trailing_semis(s@.take(t as int)) == s@.take(t as int));
    }
    let trimmed = s.substring_char(0, t);
    proof {
        assert(trimmed@ =~= s@.take(t as int));
    }

    let n = trimmed.unicode_len();
    let mut out: Vec<String> = Vec::new();
    proof {
        assert(trimmed@.skip(0) =~= trimmed@);
        assert(out.deep_view() =~= Seq::<Seq<char>>::empty());
        assert(out.deep_view() + split_semis(trimmed@) =~= split_semis(trimmed@));
    }
    let mut start: usize = 0;
    let mut j: usize = 0;
    while j < n
        invariant
            start <= j <= n,
            n == trimmed@.len(),
            forall|k: int| start <= k < j ==> trimmed@[k] != ';',
            split_semis(trimmed@) == out.deep_view() + split_semis(
                trimmed@.skip(start as int),
            ),
        decreases n - j,
    {
        let c = trimmed.get_char(j);
        if c == ';' {
            let seg = trimmed.substring_char(start, j);
            proof {
                let rest = trimmed@.skip(start as int);
                lemma_first_semi_at(rest, j - start);
                assert(rest.take(j - start) =~= trimmed@.subrange(start as int, j as int));
                assert(rest.skip(j - start + 1) =~= trimmed@.skip(j as int + 1));
            }
            out.push(seg.to_owned());
            proof {
                assert(out.deep_view() =~= out.deep_view().drop_last().push(
                    trimmed@.subrange(start as int, j as int),
                ));
                assert(split_semis(trimmed@) =~= out.deep_view() + split_semis(
                    trimmed@.skip(j as int + 1),
                ));
            }
            start = j + 1;
        }
        j = j + 1;
    }
    let seg = trimmed.substring_char(start, n);
    proof {
        let rest = trimmed@.skip(start as int);
        lemma_first_semi_at(rest, n - start);
        assert(split_semis(rest) =~= seq![rest]);
        assert(rest =~= trimmed@.subrange(start as int, n as int));
    }
    out.push(seg.to_owned());
    proof {
        assert(out.deep_view() =~= out.deep_view().drop_last().push(
            trimmed@.subrange(start as int, n as int),
        ));
        assert(out.deep_view() =~= split_semis(trimmed@));
    }
    out
}

} // verus!
