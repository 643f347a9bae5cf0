//! Building the ordered lists that the viewer pages through: the images of a
//! directory or archive, and the archives beside an open one.
use std::cmp::Ordering;
use vstd::prelude::*;

use crate::names::{is_archive_file, is_archive_name, is_image_file, is_image_name};
use crate::natural::{
    lemma_natural_antisymmetric, lemma_natural_transitive, natural_cmp, natural_sort,
};

verus! {

/// The character views of a sequence of strings.
pub open spec fn views(v: Seq<String>) -> Seq<Seq<char>> {
    v.map_values(|s: String| s@)
}

/// Inserts `x` into `s` after every element that does not sort after it,
/// scanning from the end: where `s` is in order, the result is in order and
/// keeps equal names in the order they came.
pub open spec fn insert_name(s: Seq<Seq<char>>, x: Seq<char>) -> Seq<Seq<char>>
    decreases s.len(),
{
    if s.len() == 0 {
        seq![x]
    } else if natural_cmp(s.last(), x) == Ordering::Greater {
        insert_name(s.drop_last(), x).push(s.last())
    } else {
        s.push(x)
    }
}

/// The stable natural sort of a sequence of names.
pub open spec fn sort_spec(s: Seq<Seq<char>>) -> Seq<Seq<char>>
    decreases s.len(),
{
    if s.len() == 0 {
        s
    } else {
        insert_name(sort_spec(s.drop_last()), s.last())
    }
}

/// No name is followed by one that sorts before it.
pub open spec fn in_natural_order(s: Seq<Seq<char>>) -> bool {
    forall|i: int| 0 <= i < s.len() - 1 ==> #[trigger] natural_cmp(s[i], s[i + 1]) != Ordering::Greater
}

proof fn lemma_insert_name(s: Seq<Seq<char>>, x: Seq<char>)
    requires
        in_natural_order(s),
    ensures
        in_natural_order(insert_name(s, x)),
        insert_name(s, x).len() == s.len() + 1,
        insert_name(s, x).last() == x || (s.len() > 0 && insert_name(s, x).last() == s.last()),
    decreases s.len(),
{
    if s.len() > 0 && natural_cmp(s.last(), x) == Ordering::Greater {
        let u = s.drop_last();
        let t = insert_name(u, x);
        lemma_insert_name(u, x);
        lemma_natural_antisymmetric(s.last(), x);
        let r = t.push(s.last());
        assert forall|i: int| 0 <= i < r.len() - 1 implies #[trigger] natural_cmp(r[i], r[i + 1])
            != Ordering::Greater by {
            if i < r.len() - 2 {
                assert(r[i] == t[i] && r[i + 1] == t[i + 1]);
            } else {
                assert(r[i] == t.last());
                assert(r[i + 1] == s.last());
                if t.last() != x {
                    assert(s[s.len() - 2] == u.last());
                    let k = s.len() - 2;
                    assert(natural_cmp(s[k], s[k + 1]) != Ordering::Greater);
                }
            }
        }
    } else if s.len() > 0 {
        let r = s.push(x);
        assert forall|i: int| 0 <= i < r.len() - 1 implies #[trigger] natural_cmp(r[i], r[i + 1])
            != Ordering::Greater by {
            if i < r.len() - 2 {
                assert(r[i] == s[i] && r[i + 1] == s[i + 1]);
            }
        }
    }
}

/// The sort's result is in natural order.
pub proof fn lemma_sort_in_order(s: Seq<Seq<char>>)
    ensures
        in_natural_order(sort_spec(s)),
        sort_spec(s).len() == s.len(),
    decreases s.len(),
{
    if s.len() > 0 {
        lemma_sort_in_order(s.drop_last());
        lemma_insert_name(sort_spec(s.drop_last()), s.last());
    }
}

/// Sorting a sequence that is already in natural order leaves it as it is.
pub proof fn lemma_sort_keeps_ordered(s: Seq<Seq<char>>)
    requires
        in_natural_order(s),
    ensures
        sort_spec(s) == s,
    decreases s.len(),
{
    if s.len() > 0 {
        let u = s.drop_last();
        assert forall|i: int| 0 <= i < u.len() - 1 implies #[trigger] natural_cmp(u[i], u[i + 1])
            != Ordering::Greater by {
            assert(u[i] == s[i] && u[i + 1] == s[i + 1]);
        }
        lemma_sort_keeps_ordered(u);
        if u.len() > 0 {
            assert(u.last() == s[s.len() - 2]);
        }
        assert(u.push(s.last()) =~= s);
    }
}

/// Names in natural order are ordered pairwise: no name sorts after any
/// name that follows it.
pub proof fn lemma_ordered_pairwise(s: Seq<Seq<char>>, i: int, j: int)
    requires
        in_natural_order(s),
        0 <= i < j < s.len(),
    ensures
        natural_cmp(s[i], s[j]) != Ordering::Greater,
    decreases j - i,
{
    let k = j - 1;
    assert(natural_cmp(s[k], s[k + 1]) != Ordering::Greater);
    if i < k {
        lemma_ordered_pairwise(s, i, k);
        lemma_natural_transitive(s[i], s[k], s[j]);
    }
}

/// The sort's result is ordered pairwise.
pub proof fn lemma_sort_pairwise(s: Seq<Seq<char>>)
    ensures
        forall|i: int, j: int|
            0 <= i < j < sort_spec(s).len() ==> natural_cmp(#[trigger] sort_spec(s)[i], #[trigger] sort_spec(s)[j])
                != Ordering::Greater,
{
    lemma_sort_in_order(s);
    assert forall|i: int, j: int| 0 <= i < j < sort_spec(s).len() implies natural_cmp(
        #[trigger] sort_spec(s)[i],
        #[trigger] sort_spec(s)[j],
    ) != Ordering::Greater by {
        lemma_ordered_pairwise(sort_spec(s), i, j);
    }
}

/// Sorting is idempotent: sorting the sorted names again changes nothing.
pub proof fn lemma_sort_idempotent(s: Seq<Seq<char>>)
    ensures
        sort_spec(sort_spec(s)) == sort_spec(s),
{
    lemma_sort_in_order(s);
    lemma_sort_keeps_ordered(sort_spec(s));
}

proof fn lemma_insert_name_multiset(s: Seq<Seq<char>>, x: Seq<char>)
    ensures
        insert_name(s, x).to_multiset() =~= s.to_multiset().insert(x),
    decreases s.len(),
{
    broadcast use vstd::seq_lib::group_to_multiset_ensures;
    broadcast use vstd::multiset::group_multiset_axioms;

    if s.len() == 0 {
        assert(seq![x] =~= s.push(x));
    } else if natural_cmp(s.last(), x) == Ordering::Greater {
        let u = s.drop_last();
        lemma_insert_name_multiset(u, x);
        assert(u.push(s.last()) =~= s);
    }
}

/// The sort rearranges names: it neither drops nor adds any.
pub proof fn lemma_sort_permutes(s: Seq<Seq<char>>)
    ensures
        sort_spec(s).to_multiset() =~= s.to_multiset(),
    decreases s.len(),
{
    broadcast use vstd::seq_lib::group_to_multiset_ensures;

    if s.len() > 0 {
        let u = s.drop_last();
        lemma_sort_permutes(u);
        lemma_insert_name_multiset(sort_spec(u), s.last());
        assert(u.push(s.last()) =~= s);
    }
}

/// Sorts names in natural order, keeping equal names in their order.
pub fn sort_names(names: &Vec<String>) -> (r: Vec<String>)
    ensures
        views(r@) == sort_spec(views(names@)),
        in_natural_order(views(r@)),
{
    let mut r: Vec<String> = Vec::new();
    let mut i: usize = 0;
    while i < names.len()
        invariant
            i <= names.len(),
            views(r@) == sort_spec(views(names@).take(i as int)),
        decreases names.len() - i,
    {
        let x = names[i].clone();
        let ghost s = views(r@);
        let mut pos: usize = r.len();
        assert(s.take(pos as int) =~= s);
        assert(s.skip(pos as int) =~= Seq::<Seq<char>>::empty());
        while pos > 0 && matches!(natural_sort(r[pos - 1].as_str(), x.as_str()), Ordering::Greater)
            invariant
                pos <= r.len(),
                s == views(r@),
                insert_name(s, x@) == insert_name(s.take(pos as int), x@) + s.skip(pos as int),
            decreases pos,
        {
            let ghost t = s.take(pos as int);
            assert(t.last() == s[pos - 1]);
            assert(t.drop_last() =~= s.take(pos - 1));
            assert(seq![s[pos - 1]] + s.skip(pos as int) =~= s.skip(pos - 1));
            assert(insert_name(t.drop_last(), x@).push(t.last()) + s.skip(pos as int)
                =~= insert_name(t.drop_last(), x@) + s.skip(pos - 1));
            pos -= 1;
        }
        proof {
            let t = s.take(pos as int);
            if pos > 0 {
                assert(t.last() == s[pos - 1]);
            }
        }
        r.insert(pos, x);
        proof {
            let t = s.take(pos as int);
            assert(views(r@) =~= insert_name(s, x@));
            assert(views(names@).take(i + 1).drop_last() =~= views(names@).take(i as int));
        }
        i += 1;
    }
    assert(views(names@).take(i as int) =~= views(names@));
    proof {
        lemma_sort_in_order(views(names@));
    }
    r
}

/// Attribute bit of a hidden file.
pub const HIDDEN_ATTRIBUTE: u32 = 2;

/// Attribute bit of a system file.
pub const SYSTEM_ATTRIBUTE: u32 = 4;

/// One entry of a directory listing.
pub struct ListedFile {
    /// The entry's name within its directory.
    pub name: String,
    /// Whether the entry is a regular file.
    pub is_file: bool,
    /// The entry's attribute bits (zero where the system has none).
    pub attributes: u32,
}

/// A regular file that is neither hidden nor a system file.
pub open spec fn is_visible_file(f: ListedFile) -> bool {
    &&& f.is_file
    &&& f.attributes & HIDDEN_ATTRIBUTE == 0
    &&& f.attributes & SYSTEM_ATTRIBUTE == 0
}

/// Names of the visible image files of a listing, in listing order.
pub open spec fn listed_images(s: Seq<ListedFile>) -> Seq<Seq<char>>
    decreases s.len(),
{
    if s.len() == 0 {
        Seq::empty()
    } else if is_visible_file(s.last()) && is_image_name(s.last().name@) {
        listed_images(s.drop_last()).push(s.last().name@)
    } else {
        listed_images(s.drop_last())
    }
}

/// Names of the archive files of a listing, in listing order.
pub open spec fn listed_archives(s: Seq<ListedFile>) -> Seq<Seq<char>>
    decreases s.len(),
{
    if s.len() == 0 {
        Seq::empty()
    } else if s.last().is_file && is_archive_name(s.last().name@) {
        listed_archives(s.drop_last()).push(s.last().name@)
    } else {
        listed_archives(s.drop_last())
    }
}

/// The image names among `s`, in their order.
pub open spec fn image_names(s: Seq<Seq<char>>) -> Seq<Seq<char>>
    decreases s.len(),
{
    if s.len() == 0 {
        Seq::empty()
    } else if is_image_name(s.last()) {
        image_names(s.drop_last()).push(s.last())
    } else {
        image_names(s.drop_last())
    }
}

/// The images of a directory listing, in natural order: regular files that
/// are neither hidden nor system files and whose extension is an image type.
pub fn image_files(listing: &Vec<ListedFile>) -> (r: Vec<String>)
    ensures
        views(r@) == sort_spec(listed_images(listing@)),
{
    let mut kept: Vec<String> = Vec::new();
    let mut i: usize = 0;
    while i < listing.len()
        invariant
            i <= listing.len(),
            views(kept@) == listed_images(listing@.take(i as int)),
        decreases listing.len() - i,
    {
        let f = &listing[i];
        assert(listing@.take(i + 1).drop_last() =~= listing@.take(i as int));
        if f.is_file && f.attributes & HIDDEN_ATTRIBUTE == 0 && f.attributes & SYSTEM_ATTRIBUTE == 0
            && is_image_file(f.name.as_str()) {
            kept.push(f.name.clone());
            assert(views(kept@) =~= listed_images(listing@.take(i + 1)));
        }
        i += 1;
    }
    assert(listing@.take(i as int) =~= listing@);
    sort_names(&kept)
}

/// The archive files of a directory listing, in natural order.
pub fn archive_files(listing: &Vec<ListedFile>) -> (r: Vec<String>)
    ensures
        views(r@) == sort_spec(listed_archives(listing@)),
{
    let mut kept: Vec<String> = Vec::new();
    let mut i: usize = 0;
    while i < listing.len()
        invariant
            i <= listing.len(),
            views(kept@) == listed_archives(listing@.take(i as int)),
        decreases listing.len() - i,
    {
        let f = &listing[i];
        assert(listing@.take(i + 1).drop_last() =~= listing@.take(i as int));
        if f.is_file && is_archive_file(f.name.as_str()) {
            kept.push(f.name.clone());
            assert(views(kept@) =~= listed_archives(listing@.take(i + 1)));
        }
        i += 1;
    }
    assert(listing@.take(i as int) =~= listing@);
    sort_names(&kept)
}

/// The image names among the members of an archive, in natural order.
pub fn image_entries(names: &Vec<String>) -> (r: Vec<String>)
    ensures
        views(r@) == sort_spec(image_names(views(names@))),
{
    let mut kept: Vec<String> = Vec::new();
    let mut i: usize = 0;
    while i < names.len()
        invariant
            i <= names.len(),
            views(kept@) == image_names(views(names@).take(i as int)),
        decreases names.len() - i,
    {
        assert(views(names@).take(i + 1).drop_last() =~= views(names@).take(i as int));
        if is_image_file(names[i].as_str()) {
            kept.push(names[i].clone());
            assert(views(kept@) =~= image_names(views(names@).take(i + 1)));
        }
        i += 1;
    }
    assert(views(names@).take(i as int) =~= views(names@));
    sort_names(&kept)
}

} // verus!
