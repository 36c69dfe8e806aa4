//! From the names found in a frame directory to the ordered list of frames:
//! keep the names with the extension `png`, and sort them as Rust orders
//! strings, byte by byte.

use vstd::prelude::*;
use vstd::string::*;
use vstd::utf8::*;
use vstd::seq_lib::*;
use vstd::multiset::Multiset;
use vstd::relations::{
    antisymmetric, reflexive, sorted_by, strongly_connected, total_ordering, transitive,
};

verus! {

/// The bytes by which a name is ordered and matched: its UTF-8 encoding.
pub open spec fn name_key(name: Seq<char>) -> Seq<u8> {
    encode_utf8(name)
}

/// `a` and `b` agree on their first `k` bytes, and after them `a` ends while
/// `b` goes on, or `a` has the smaller byte.
pub open spec fn precedes_at(a: Seq<u8>, b: Seq<u8>, k: int) -> bool {
    &&& 0 <= k <= a.len()
    &&& k < b.len()
    &&& a.take(k) == b.take(k)
    &&& (k == a.len() || a[k] < b[k])
}

/// `a` comes strictly before `b` in lexicographic order.
pub open spec fn comes_before(a: Seq<u8>, b: Seq<u8>) -> bool {
    exists|k: int| precedes_at(a, b, k)
}

/// No name of the sequence comes before one that stands earlier in it.
pub open spec fn in_name_order(names: Seq<Seq<char>>) -> bool {
    forall|i: int, j: int|
        0 <= i < j < names.len() ==> !comes_before(
            name_key(#[trigger] names[j]),
            name_key(#[trigger] names[i]),
        )
}

/// The four bytes of `.png`.
pub open spec fn png_suffix() -> Seq<u8> {
    seq![0x2Eu8, 0x70u8, 0x6Eu8, 0x67u8]
}

/// Whether a file name has the extension `png`: it ends in `.png`, in lower
/// case, and something stands before the dot.
pub open spec fn is_png_name(name: Seq<char>) -> bool {
    let key = name_key(name);
    key.len() > 4 && key.skip(key.len() - 4) == png_suffix()
}

/// The names with the extension `png`, in the order in which they were given.
pub open spec fn png_names(names: Seq<Seq<char>>) -> Seq<Seq<char>> {
    names.filter(|name: Seq<char>| is_png_name(name))
}

/// The names that a sequence of strings holds.
pub open spec fn titles(names: Seq<String>) -> Seq<Seq<char>> {
    Seq::new(names.len(), |i: int| names[i]@)
}

/// Nothing comes before itself.
pub proof fn lemma_order_irreflexive(a: Seq<u8>)
    ensures
        !comes_before(a, a),
{
}

/// The order is transitive.
pub proof fn lemma_order_transitive(a: Seq<u8>, b: Seq<u8>, c: Seq<u8>)
    requires
        comes_before(a, b),
        comes_before(b, c),
    ensures
        comes_before(a, c),
{
    let k1 = choose|k: int| precedes_at(a, b, k);
    let k2 = choose|k: int| precedes_at(b, c, k);
    let k = if k1 <= k2 {
        k1
    } else {
        k2
    };
    assert forall|j: int| 0 <= j < k implies a[j] == c[j] by {
        assert(a.take(k1)[j] == b.take(k1)[j]);
        assert(b.take(k2)[j] == c.take(k2)[j]);
    }
    assert(a.take(k) =~= c.take(k));
    if k1 < k2 {
        assert(b.take(k2)[k1] == c.take(k2)[k1]);
    } else if k2 < k1 {
        assert(a.take(k1)[k2] == b.take(k1)[k2]);
    }
    assert(precedes_at(a, c, k));
}

/// Of two different byte strings one comes before the other.
pub proof fn lemma_order_total(a: Seq<u8>, b: Seq<u8>)
    ensures
        a == b || comes_before(a, b) || comes_before(b, a),
{
    if a != b {
        assert(a.take(0) =~= b.take(0));
        lemma_first_difference(a, b, 0);
    }
}

proof fn lemma_first_difference(a: Seq<u8>, b: Seq<u8>, k: int)
    requires
        0 <= k <= a.len(),
        k <= b.len(),
        a.take(k) == b.take(k),
        a != b,
    ensures
        comes_before(a, b) || comes_before(b, a),
    decreases a.len() - k,
{
    if k == a.len() {
        if k == b.len() {
            assert(a.take(k) =~= a);
            assert(b.take(k) =~= b);
        } else {
            assert(precedes_at(a, b, k));
        }
    } else if k == b.len() {
        assert(precedes_at(b, a, k));
    } else if a[k] < b[k] {
        assert(precedes_at(a, b, k));
    } else if b[k] < a[k] {
        assert(precedes_at(b, a, k));
    } else {
        assert(a.take(k + 1) =~= a.take(k).push(a[k]));
        assert(b.take(k + 1) =~= b.take(k).push(b[k]));
        lemma_first_difference(a, b, k + 1);
    }
}

/// `a` does not sort behind `b`.
pub open spec fn not_behind(a: Seq<char>, b: Seq<char>) -> bool {
    !comes_before(name_key(b), name_key(a))
}

/// Names are ordered totally: `not_behind` is reflexive, antisymmetric,
/// transitive and connects any two names.
pub proof fn lemma_names_totally_ordered()
    ensures
        total_ordering(|a: Seq<char>, b: Seq<char>| not_behind(a, b)),
{
    let leq = |a: Seq<char>, b: Seq<char>| not_behind(a, b);
    assert forall|x: Seq<char>| #[trigger] leq(x, x) by {
        lemma_order_irreflexive(name_key(x));
    }
    assert forall|x: Seq<char>, y: Seq<char>| #[trigger] leq(x, y) && #[trigger] leq(y, x) implies x
        == y by {
        lemma_order_total(name_key(x), name_key(y));
        encode_utf8_decode_utf8(x);
        encode_utf8_decode_utf8(y);
    }
    assert forall|x: Seq<char>, y: Seq<char>, z: Seq<char>| #[trigger]
        leq(x, y) && #[trigger] leq(y, z) implies leq(x, z) by {
        if comes_before(name_key(z), name_key(x)) {
            lemma_order_total(name_key(x), name_key(y));
            if comes_before(name_key(x), name_key(y)) {
                lemma_order_transitive(name_key(z), name_key(x), name_key(y));
            }
        }
    }
    assert forall|x: Seq<char>, y: Seq<char>| #[trigger] leq(x, y) || #[trigger] leq(y, x) by {
        if comes_before(name_key(y), name_key(x)) && comes_before(name_key(x), name_key(y)) {
            lemma_order_transitive(name_key(x), name_key(y), name_key(x));
            lemma_order_irreflexive(name_key(x));
        }
    }
    assert(reflexive(leq));
    assert(antisymmetric(leq));
    assert(transitive(leq));
    assert(strongly_connected(leq));
}

/// A selection is determined by what it holds: two lists in name order with
/// the same names, each as often in one as in the other, are the same list.
pub proof fn lemma_selection_is_unique(first: Seq<Seq<char>>, second: Seq<Seq<char>>)
    requires
        in_name_order(first),
        in_name_order(second),
        first.to_multiset() == second.to_multiset(),
    ensures
        first == second,
{
    let leq = |a: Seq<char>, b: Seq<char>| not_behind(a, b);
    lemma_names_totally_ordered();
    assert(sorted_by(first, leq));
    assert(sorted_by(second, leq));
    lemma_sorted_unique(first, second, leq);
}

/// Whether `a` sorts strictly before `b`.
pub fn name_precedes(a: &str, b: &str) -> (before: bool)
    ensures
        before == comes_before(name_key(a@), name_key(b@)),
{
    let x = a.as_bytes();
    let y = b.as_bytes();
    let mut i: usize = 0;
    while i < x.len() && i < y.len()
        invariant
            x@ == name_key(a@),
            y@ == name_key(b@),
            i <= x@.len(),
            i <= y@.len(),
            forall|j: int| 0 <= j < i ==> x@[j] == y@[j],
        decreases x@.len() - i,
    {
        if x[i] < y[i] {
            proof {
                assert(x@.take(i as int) =~= y@.take(i as int));
                assert(precedes_at(x@, y@, i as int));
            }
            return true;
        }
        if x[i] > y[i] {
            proof {
                assert forall|k: int| !precedes_at(x@, y@, k) by {
                    if precedes_at(x@, y@, k) {
                        if k > i {
                            assert(x@.take(k)[i as int] == y@.take(k)[i as int]);
                        }
                    }
                }
            }
            return false;
        }
        i += 1;
    }
    proof {
        if x@.len() < y@.len() {
            assert(x@.take(i as int) =~= y@.take(i as int));
            assert(precedes_at(x@, y@, i as int));
        } else {
            assert forall|k: int| !precedes_at(x@, y@, k) by {}
        }
    }
    x.len() < y.len()
}

/// Whether a file name has the extension `png`.
pub fn has_png_extension(name: &str) -> (yes: bool)
    ensures
        yes == is_png_name(name@),
{
    let key = name.as_bytes();
    let n = key.len();
    if n <= 4 {
        return false;
    }
    let yes = key[n - 4] == 0x2E && key[n - 3] == 0x70 && key[n - 2] == 0x6E && key[n - 1] == 0x67;
    proof {
        let tail = key@.skip(n - 4);
        assert(tail.len() == 4);
        assert(tail[0] == key@[n - 4]);
        assert(tail[1] == key@[n - 3]);
        assert(tail[2] == key@[n - 2]);
        assert(tail[3] == key@[n - 1]);
        if yes {
            assert(tail =~= png_suffix());
        }
    }
    yes
}

proof fn lemma_nothing_listed()
    ensures
        Seq::<Seq<char>>::empty().to_multiset() =~= Multiset::<Seq<char>>::empty(),
        png_names(Seq::<Seq<char>>::empty()) =~= Seq::<Seq<char>>::empty(),
{
    broadcast use vstd::multiset::group_multiset_axioms;

    let none = Seq::<Seq<char>>::empty();
    none.to_multiset_ensures();
    assert forall|name: Seq<char>| none.to_multiset().count(name) == 0 by {
        assert(!none.contains(name));
    }
    reveal(Seq::filter);
}

proof fn lemma_insert_keeps_order(names: Seq<Seq<char>>, pos: int, name: Seq<char>)
    requires
        in_name_order(names),
        0 <= pos <= names.len(),
        forall|i: int| 0 <= i < pos ==> !comes_before(name_key(name), name_key(#[trigger] names[i])),
        pos < names.len() ==> comes_before(name_key(name), name_key(names[pos])),
    ensures
        in_name_order(names.insert(pos, name)),
{
    let longer = names.insert(pos, name);
    names.insert_ensures(pos, name);
    assert forall|i: int, j: int| 0 <= i < j < longer.len() implies !comes_before(
        name_key(#[trigger] longer[j]),
        name_key(#[trigger] longer[i]),
    ) by {
        if i == pos {
            // longer[j] stood at j - 1 >= pos: it does not come before names[pos]
            let later = names[j - 1];
            if comes_before(name_key(later), name_key(name)) {
                lemma_order_transitive(name_key(later), name_key(name), name_key(names[pos]));
                lemma_order_irreflexive(name_key(names[pos]));
                if pos < j - 1 {
                    assert(!comes_before(name_key(names[j - 1]), name_key(names[pos])));
                }
            }
        } else if j == pos {
            assert(longer[i] == names[i]);
        } else {
            let from_i = if i < pos { i } else { i - 1 };
            let from_j = if j < pos { j } else { j - 1 };
            assert(longer[i] == names[from_i]);
            assert(longer[j] == names[from_j]);
        }
    }
}

/// The place of a new name among frames that are in order: behind every
/// frame that it does not come before.
fn insertion_point(frames: &Vec<String>, name: &str) -> (pos: usize)
    ensures
        pos <= frames@.len(),
        forall|i: int|
            0 <= i < pos ==> !comes_before(name_key(name@), name_key(#[trigger] titles(frames@)[i])),
        pos < frames@.len() ==> comes_before(name_key(name@), name_key(titles(frames@)[pos as int])),
{
    let mut pos: usize = 0;
    while pos < frames.len()
        invariant
            pos <= frames@.len(),
            forall|i: int|
                0 <= i < pos ==> !comes_before(
                    name_key(name@),
                    name_key(#[trigger] titles(frames@)[i]),
                ),
        decreases frames@.len() - pos,
    {
        if name_precedes(name, frames[pos].as_str()) {
            return pos;
        }
        pos += 1;
    }
    pos
}

/// Picks the frames out of a directory listing: the names with the extension
/// `png`, sorted. The result holds exactly those names, each as often as the
/// listing does, and is in order; no other list does both.
pub fn select_frames(names: Vec<String>) -> (frames: Vec<String>)
    ensures
        in_name_order(titles(frames@)),
        titles(frames@).to_multiset() == png_names(titles(names@)).to_multiset(),
{
    let ghost listed = titles(names@);
    let mut rest = names;
    let mut frames: Vec<String> = Vec::new();
    proof {
        broadcast use vstd::multiset::group_multiset_axioms;

        lemma_nothing_listed();
        assert(titles(frames@) =~= Seq::<Seq<char>>::empty());
        assert(titles(frames@).to_multiset().add(png_names(titles(rest@)).to_multiset())
            =~= png_names(listed).to_multiset());
    }
    while rest.len() > 0
        invariant
            in_name_order(titles(frames@)),
            titles(frames@).to_multiset().add(png_names(titles(rest@)).to_multiset())
                == png_names(listed).to_multiset(),
        decreases rest@.len(),
    {
        let ghost before = titles(rest@);
        let ghost sorted = titles(frames@);
        let name = rest.pop().unwrap();
        let ghost kept = png_names(before.drop_last());
        proof {
            assert(titles(rest@) =~= before.drop_last());
            assert(before.last() == name@);
            assert(before =~= before.drop_last().push(name@));
            before.drop_last().lemma_filter_push(name@, |name: Seq<char>| is_png_name(name));
            assert(png_names(before) == if is_png_name(name@) {
                kept.push(name@)
            } else {
                kept
            });
        }
        if has_png_extension(name.as_str()) {
            let pos = insertion_point(&frames, name.as_str());
            proof {
                lemma_insert_keeps_order(sorted, pos as int, name@);
            }
            frames.insert(pos, name);
            proof {
                broadcast use vstd::multiset::group_multiset_axioms;

                sorted.insert_ensures(pos as int, name@);
                assert(titles(frames@) =~= sorted.insert(pos as int, name@));
                to_multiset_insert(sorted, pos as int, name@);
                to_multiset_build(kept, name@);
                assert(sorted.to_multiset().insert(name@).add(kept.to_multiset())
                    =~= sorted.to_multiset().add(kept.to_multiset().insert(name@)));
            }
        }
    }
    proof {
        broadcast use vstd::multiset::group_multiset_axioms;

        lemma_nothing_listed();
        assert(titles(rest@) =~= Seq::<Seq<char>>::empty());
        assert(titles(frames@).to_multiset().add(png_names(titles(rest@)).to_multiset())
            =~= titles(frames@).to_multiset());
    }
    frames
}

} // verus!
