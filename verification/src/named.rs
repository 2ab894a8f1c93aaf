//! Lists of named things in which no name occurs twice, read as maps.

use vstd::prelude::*;

verus! {

/// No name occurs twice.
pub open spec fn distinct_names<T>(listing: Seq<(Seq<char>, T)>) -> bool {
    forall|i: int, j: int|
        0 <= i < j < listing.len() ==> (#[trigger] listing[i]).0 != (#[trigger] listing[j]).0
}

/// `name` occurs in `listing`.
pub open spec fn lists<T>(listing: Seq<(Seq<char>, T)>, name: Seq<char>) -> bool {
    exists|i: int| 0 <= i < listing.len() && (#[trigger] listing[i]).0 == name
}

/// A place at which `name` occurs in `listing`.
pub open spec fn place<T>(listing: Seq<(Seq<char>, T)>, name: Seq<char>) -> int {
    choose|i: int| 0 <= i < listing.len() && (#[trigger] listing[i]).0 == name
}

/// The mapping from each name of `listing` to its item.
pub open spec fn as_map<T>(listing: Seq<(Seq<char>, T)>) -> Map<Seq<char>, T> {
    Map::new(|name: Seq<char>| lists(listing, name), |name: Seq<char>| listing[place(listing, name)].1)
}

/// Where names are distinct, the entry at `i` is what the mapping holds
/// under its name.
pub proof fn lemma_entry<T>(listing: Seq<(Seq<char>, T)>, i: int)
    requires
        distinct_names(listing),
        0 <= i < listing.len(),
    ensures
        lists(listing, listing[i].0),
        place(listing, listing[i].0) == i,
        as_map(listing).contains_key(listing[i].0),
        as_map(listing)[listing[i].0] == listing[i].1,
{
    let name = listing[i].0;
    assert(lists(listing, name));
    let p = place(listing, name);
    assert(0 <= p < listing.len() && listing[p].0 == name);
    if p < i {
        assert(listing[p].0 != listing[i].0);
    } else if i < p {
        assert(listing[i].0 != listing[p].0);
    }
}

/// A new item at a place keeps the names and changes the one entry of the mapping.
pub proof fn lemma_replace<T>(listing: Seq<(Seq<char>, T)>, i: int, item: T)
    requires
        distinct_names(listing),
        0 <= i < listing.len(),
    ensures
        distinct_names(listing.update(i, (listing[i].0, item))),
        as_map(listing.update(i, (listing[i].0, item))) == as_map(listing).insert(listing[i].0, item),
{
    let after = listing.update(i, (listing[i].0, item));
    assert forall|a: int, b: int| 0 <= a < b < after.len() implies (#[trigger] after[a]).0 != (
    #[trigger] after[b]).0 by {
        assert(after[a].0 == listing[a].0);
        assert(after[b].0 == listing[b].0);
    }
    assert forall|name: Seq<char>| lists(after, name) == lists(listing, name) by {
        if lists(listing, name) {
            let p = place(listing, name);
            assert(after[p].0 == name);
        }
        if lists(after, name) {
            let p = place(after, name);
            assert(listing[p].0 == name);
        }
    }
    assert forall|name: Seq<char>| lists(after, name) implies #[trigger] as_map(after)[name] == as_map(
        listing,
    ).insert(listing[i].0, item)[name] by {
        let p = place(after, name);
        assert(after[p].0 == name);
        lemma_entry(after, p);
        lemma_entry(listing, p);
    }
    assert(as_map(after) =~= as_map(listing).insert(listing[i].0, item));
}

/// A new name at the end adds one entry to the mapping.
pub proof fn lemma_append<T>(listing: Seq<(Seq<char>, T)>, name: Seq<char>, item: T)
    requires
        distinct_names(listing),
        !lists(listing, name),
    ensures
        distinct_names(listing.push((name, item))),
        as_map(listing.push((name, item))) == as_map(listing).insert(name, item),
{
    let after = listing.push((name, item));
    assert forall|a: int, b: int| 0 <= a < b < after.len() implies (#[trigger] after[a]).0 != (
    #[trigger] after[b]).0 by {
        if b == listing.len() {
            assert(listing[a].0 != name);
        } else {
            assert(listing[a].0 != listing[b].0);
        }
    }
    assert forall|n: Seq<char>| lists(after, n) == (lists(listing, n) || n == name) by {
        if lists(listing, n) {
            let p = place(listing, n);
            assert(after[p].0 == n);
        }
        if n == name {
            assert(after[listing.len() as int].0 == n);
        }
        if lists(after, n) {
            let p = place(after, n);
            if p < listing.len() {
                assert(listing[p].0 == n);
            }
        }
    }
    assert forall|n: Seq<char>| lists(after, n) implies #[trigger] as_map(after)[n] == as_map(
        listing,
    ).insert(name, item)[n] by {
        let p = place(after, n);
        assert(after[p].0 == n);
        lemma_entry(after, p);
        if p < listing.len() {
            assert(listing[p].0 == n);
            lemma_entry(listing, p);
        }
    }
    assert(as_map(after) =~= as_map(listing).insert(name, item));
}

/// Taking an entry out takes its name out of the mapping.
pub proof fn lemma_take_out<T>(listing: Seq<(Seq<char>, T)>, i: int)
    requires
        distinct_names(listing),
        0 <= i < listing.len(),
    ensures
        distinct_names(listing.remove(i)),
        as_map(listing.remove(i)) == as_map(listing).remove(listing[i].0),
{
    let after = listing.remove(i);
    let gone = listing[i].0;
    assert forall|a: int, b: int| 0 <= a < b < after.len() implies (#[trigger] after[a]).0 != (
    #[trigger] after[b]).0 by {
        let a0 = if a < i { a } else { a + 1 };
        let b0 = if b < i { b } else { b + 1 };
        assert(after[a] == listing[a0]);
        assert(after[b] == listing[b0]);
        assert(listing[a0].0 != listing[b0].0);
    }
    assert forall|n: Seq<char>| lists(after, n) == (lists(listing, n) && n != gone) by {
        if lists(listing, n) && n != gone {
            let p = place(listing, n);
            let q = if p < i { p } else { p - 1 };
            assert(after[q] == listing[p]);
            assert(after[q].0 == n);
        }
        if lists(after, n) {
            let q = place(after, n);
            let p = if q < i { q } else { q + 1 };
            assert(after[q] == listing[p]);
            assert(listing[p].0 == n);
            if p < i {
                assert(listing[p].0 != listing[i].0);
            } else {
                assert(listing[i].0 != listing[p].0);
            }
        }
    }
    assert forall|n: Seq<char>| lists(after, n) implies #[trigger] as_map(after)[n] == as_map(
        listing,
    ).remove(gone)[n] by {
        let q = place(after, n);
        let p = if q < i { q } else { q + 1 };
        assert(after[q] == listing[p]);
        lemma_entry(after, q);
        lemma_entry(listing, p);
    }
    assert(as_map(after) =~= as_map(listing).remove(gone));
}

} // verus!
