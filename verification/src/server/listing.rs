//! The order of a directory listing.
//!
//! Items are ordered by their type, then by their name, then by their
//! link, names and links byte by byte.  The order is total, so a listing
//! has one order only, however the file system hands its entries out.

use vstd::prelude::*;
use vstd::relations::{sorted_by, total_ordering};
use vstd::seq_lib::*;
use crate::extensions::PathType;
use crate::text::bytes_eq;

verus! {

/// One line of a directory listing.
#[derive(Debug, Clone, PartialEq, Eq, PartialOrd, Ord)]
pub struct Item {
    pub path_type: PathType,
    /// The name to show.
    pub name: Vec<u8>,
    /// The link to follow.
    pub path: Vec<u8>,
}

/// One line of a directory listing as a value.
pub struct ItemView {
    pub path_type: PathType,
    pub name: Seq<u8>,
    pub path: Seq<u8>,
}

impl View for Item {
    type V = ItemView;

    open spec fn view(&self) -> ItemView {
        ItemView { path_type: self.path_type, name: self.name@, path: self.path@ }
    }
}

/// The items of a listing as values.
pub open spec fn views(items: Seq<Item>) -> Seq<ItemView> {
    Seq::new(items.len(), |i: int| items[i]@)
}

/// Whether `a` comes before `b` or is `b`, byte by byte: at the first
/// place where they differ `a` holds the smaller byte, or `a` ends before
/// they differ.
pub open spec fn lex_le(a: Seq<u8>, b: Seq<u8>) -> bool
    decreases a.len(),
{
    if a.len() == 0 {
        true
    } else if b.len() == 0 {
        false
    } else if a[0] != b[0] {
        a[0] < b[0]
    } else {
        lex_le(a.drop_first(), b.drop_first())
    }
}

/// Whether item `a` comes before item `b` or is `b`.
pub open spec fn item_le(a: ItemView, b: ItemView) -> bool {
    if a.path_type != b.path_type {
        a.path_type.rank() < b.path_type.rank()
    } else if a.name != b.name {
        lex_le(a.name, b.name)
    } else {
        lex_le(a.path, b.path)
    }
}

/// The order of items as a relation.
pub open spec fn item_order() -> spec_fn(ItemView, ItemView) -> bool {
    |a: ItemView, b: ItemView| item_le(a, b)
}

/// The items in the order of a listing.
pub open spec fn listing_order(items: Seq<ItemView>) -> Seq<ItemView> {
    items.sort_by(item_order())
}

/// Every text comes before itself or is itself.
pub proof fn lemma_lex_reflexive(a: Seq<u8>)
    ensures
        lex_le(a, a),
    decreases a.len(),
{
    if a.len() > 0 {
        lemma_lex_reflexive(a.drop_first());
    }
}

/// Two texts that come before each other are one text.
pub proof fn lemma_lex_antisymmetric(a: Seq<u8>, b: Seq<u8>)
    requires
        lex_le(a, b),
        lex_le(b, a),
    ensures
        a == b,
    decreases a.len(),
{
    if a.len() == 0 {
        assert(b.len() == 0);
        assert(a =~= b);
    } else {
        lemma_lex_antisymmetric(a.drop_first(), b.drop_first());
        assert(a =~= seq![a[0]] + a.drop_first());
        assert(b =~= seq![b[0]] + b.drop_first());
    }
}

/// What comes before a text comes before what that text comes before.
pub proof fn lemma_lex_transitive(a: Seq<u8>, b: Seq<u8>, c: Seq<u8>)
    requires
        lex_le(a, b),
        lex_le(b, c),
    ensures
        lex_le(a, c),
    decreases a.len(),
{
    if a.len() > 0 && a[0] == b[0] && b[0] == c[0] {
        lemma_lex_transitive(a.drop_first(), b.drop_first(), c.drop_first());
    }
}

/// Of two texts one comes before the other, or they are one.
pub proof fn lemma_lex_connected(a: Seq<u8>, b: Seq<u8>)
    ensures
        lex_le(a, b) || lex_le(b, a),
    decreases a.len(),
{
    if a.len() > 0 && b.len() > 0 && a[0] == b[0] {
        lemma_lex_connected(a.drop_first(), b.drop_first());
    }
}

/// The order of items is total: every two items compare, and two items
/// that come before each other are one item.
pub proof fn lemma_item_order_total()
    ensures
        total_ordering(item_order()),
{
    let r = item_order();
    assert forall|x: ItemView| #[trigger] r(x, x) by {
        lemma_lex_reflexive(x.path);
    }
    assert forall|x: ItemView, y: ItemView| #[trigger] r(x, y) && #[trigger] r(y, x) implies x
        == y by {
        if x.path_type == y.path_type {
            if x.name != y.name {
                lemma_lex_antisymmetric(x.name, y.name);
            } else {
                lemma_lex_antisymmetric(x.path, y.path);
            }
        }
    }
    assert forall|x: ItemView, y: ItemView, z: ItemView| #[trigger]
        r(x, y) && #[trigger] r(y, z) implies r(x, z) by {
        if x.path_type == y.path_type && y.path_type == z.path_type {
            if x.name == y.name && y.name == z.name {
                lemma_lex_transitive(x.path, y.path, z.path);
            } else if x.name == y.name || y.name == z.name {
            } else {
                lemma_lex_transitive(x.name, y.name, z.name);
                if x.name == z.name {
                    lemma_lex_antisymmetric(x.name, y.name);
                }
            }
        }
    }
    assert forall|x: ItemView, y: ItemView| #[trigger] r(x, y) || #[trigger] r(y, x) by {
        lemma_lex_connected(x.name, y.name);
        lemma_lex_connected(x.path, y.path);
    }
}

/// A listing has one order only: two sequences of the same items, each
/// as often in the one as in the other, come out the same.
pub proof fn lemma_listing_order_unique(a: Seq<ItemView>, b: Seq<ItemView>)
    requires
        a.to_multiset() == b.to_multiset(),
    ensures
        listing_order(a) == listing_order(b),
{
    lemma_item_order_total();
    a.lemma_sort_by_ensures(item_order());
    b.lemma_sort_by_ensures(item_order());
    lemma_sorted_unique(listing_order(a), listing_order(b), item_order());
}

/// What comes out in order holds the items that went in, each as often,
/// and no two of them stand the wrong way round.
pub proof fn lemma_listing_order_sorts(a: Seq<ItemView>)
    ensures
        listing_order(a).to_multiset() == a.to_multiset(),
        forall|i: int, j: int|
            0 <= i < j < listing_order(a).len() ==> item_le(
                #[trigger] listing_order(a)[i],
                #[trigger] listing_order(a)[j],
            ),
{
    lemma_item_order_total();
    a.lemma_sort_by_ensures(item_order());
    assert forall|i: int, j: int| 0 <= i < j < listing_order(a).len() implies item_le(
        #[trigger] listing_order(a)[i],
        #[trigger] listing_order(a)[j],
    ) by {
        assert(item_order()(listing_order(a)[i], listing_order(a)[j]));
    }
}

/// Whether `a` comes before `b` or is `b`, byte by byte.
pub fn bytes_le(a: &[u8], b: &[u8]) -> (r: bool)
    ensures
        r == lex_le(a@, b@),
{
    let mut i: usize = 0;
    proof {
        assert(a@.skip(0) =~= a@);
        assert(b@.skip(0) =~= b@);
    }
    while i < a.len() && i < b.len()
        invariant
            i <= a@.len(),
            i <= b@.len(),
            lex_le(a@, b@) == lex_le(a@.skip(i as int), b@.skip(i as int)),
        decreases a@.len() - i,
    {
        proof {
            let x = a@.skip(i as int);
            let y = b@.skip(i as int);
            assert(x[0] == a@[i as int]);
            assert(y[0] == b@[i as int]);
            assert(x.drop_first() =~= a@.skip(i + 1));
            assert(y.drop_first() =~= b@.skip(i + 1));
        }
        if a[i] != b[i] {
            return a[i] < b[i];
        }
        i += 1;
    }
    proof {
        let x = a@.skip(i as int);
        let y = b@.skip(i as int);
        if i == a@.len() {
            assert(x.len() == 0);
        } else {
            assert(y.len() == 0);
            assert(x.len() > 0);
        }
    }
    i == a.len()
}

/// Whether item `a` comes before item `b` or is `b`.
pub fn item_precedes(a: &Item, b: &Item) -> (r: bool)
    ensures
        r == item_le(a@, b@),
{
    let ra = a.path_type.position();
    let rb = b.path_type.position();
    if ra != rb {
        ra < rb
    } else if !bytes_eq(a.name.as_slice(), b.name.as_slice()) {
        bytes_le(a.name.as_slice(), b.name.as_slice())
    } else {
        bytes_le(a.path.as_slice(), b.path.as_slice())
    }
}

/// Puts the items of a listing in order.
pub fn sort_items(items: Vec<Item>) -> (r: Vec<Item>)
    ensures
        views(r@) == listing_order(views(items@)),
{
    broadcast use {vstd::multiset::group_multiset_axioms, group_to_multiset_ensures};

    let ghost all = views(items@);
    let mut input = items;
    let mut out: Vec<Item> = Vec::new();
    proof {
        lemma_item_order_total();
        assert(views(out@) =~= Seq::<ItemView>::empty());
        assert(views(out@).to_multiset() =~= vstd::multiset::Multiset::<ItemView>::empty());
        assert(views(out@).to_multiset().add(views(input@).to_multiset()) =~= all.to_multiset());
    }
    while input.len() > 0
        invariant
            total_ordering(item_order()),
            sorted_by(views(out@), item_order()),
            views(out@).to_multiset().add(views(input@).to_multiset()) == all.to_multiset(),
        decreases input@.len(),
    {
        let ghost before = views(input@);
        let ghost sorted = views(out@);
        let item = input.pop().unwrap();
        proof {
            assert(views(input@) =~= before.remove(before.len() - 1));
            assert(before[before.len() - 1] == item@);
        }
        let mut pos: usize = 0;
        while pos < out.len() && item_precedes(&out[pos], &item)
            invariant
                pos <= out@.len(),
                sorted == views(out@),
                forall|k: int| 0 <= k < pos ==> item_le(#[trigger] sorted[k], item@),
            decreases out@.len() - pos,
        {
            proof {
                assert(sorted[pos as int] == out@[pos as int]@);
            }
            pos += 1;
        }
        proof {
            let r = item_order();
            let next = sorted.insert(pos as int, item@);
            assert forall|i: int, j: int| 0 <= i < j < next.len() implies #[trigger] r(
                next[i],
                next[j],
            ) by {
                if j == pos {
                    assert(item_le(sorted[i], item@));
                } else if i == pos {
                    assert(sorted[pos as int] == out@[pos as int]@);
                    assert(!item_le(sorted[pos as int], item@));
                    assert(r(sorted[pos as int], item@) || r(item@, sorted[pos as int]));
                    if j - 1 > pos {
                        assert(r(sorted[pos as int], sorted[j - 1]));
                        assert(r(item@, sorted[pos as int]) && r(sorted[pos as int], sorted[j - 1]));
                    }
                } else if i < pos && j < pos {
                    assert(r(sorted[i], sorted[j]));
                } else if i < pos && j > pos {
                    assert(r(sorted[i], sorted[j - 1]));
                } else {
                    assert(r(sorted[i - 1], sorted[j - 1]));
                }
            }
        }
        out.insert(pos, item);
        proof {
            assert(views(out@) =~= sorted.insert(pos as int, item@));
            to_multiset_insert(sorted, pos as int, item@);
            to_multiset_remove(before, before.len() - 1);
            to_multiset_contains(before, item@);
            assert(before.contains(item@));
            assert(views(out@).to_multiset().add(views(input@).to_multiset())
                =~= sorted.to_multiset().add(before.to_multiset()));
        }
    }
    proof {
        assert(views(input@) =~= Seq::<ItemView>::empty());
        assert(views(input@).to_multiset() =~= vstd::multiset::Multiset::<ItemView>::empty());
        assert(views(out@).to_multiset() =~= all.to_multiset());
        all.lemma_sort_by_ensures(item_order());
        lemma_sorted_unique(views(out@), listing_order(all), item_order());
    }
    out
}

} // verus!
