//! The order of photos in a list: by name, whatever the letter case.

use vstd::prelude::*;

use crate::lowercase;
use crate::photos;
use crate::photos::{LivePhoto, LivePhotoView};
use crate::text;
use crate::text::chars_of;

verus! {

broadcast use vstd::string::group_string_axioms;

/// `a` comes before `b` in the lexicographic order by the numbers of the characters.
pub open spec fn comes_before(a: Seq<char>, b: Seq<char>) -> bool
    decreases a.len(),
{
    if b.len() == 0 {
        false
    } else if a.len() == 0 {
        true
    } else if a[0] != b[0] {
        a[0] < b[0]
    } else {
        comes_before(a.drop_first(), b.drop_first())
    }
}

/// Of any two texts, one comes before the other or they are the same.
pub proof fn law_names_are_ordered(a: Seq<char>, b: Seq<char>)
    ensures
        comes_before(a, b) || comes_before(b, a) || a == b,
        !(comes_before(a, b) && comes_before(b, a)),
        !comes_before(a, a),
    decreases a.len(),
{
    if a.len() > 0 {
        law_names_are_ordered(a.drop_first(), a.drop_first());
    }
    if a.len() > 0 && b.len() > 0 {
        law_names_are_ordered(a.drop_first(), b.drop_first());
        if a[0] == b[0] && a.drop_first() == b.drop_first() {
            assert(a =~= seq![a[0]] + a.drop_first());
            assert(b =~= seq![b[0]] + b.drop_first());
        }
    } else if a.len() == 0 && b.len() == 0 {
        assert(a =~= b);
    }
}

/// What comes before a text that comes before another comes before that one too.
pub proof fn law_order_carries_over(a: Seq<char>, b: Seq<char>, c: Seq<char>)
    requires
        comes_before(a, b),
        comes_before(b, c),
    ensures
        comes_before(a, c),
    decreases a.len(),
{
    if a.len() > 0 && a[0] == b[0] && b[0] == c[0] {
        law_order_carries_over(a.drop_first(), b.drop_first(), c.drop_first());
    }
}

/// The item number `i` belongs in front of the item number `j`: its key comes before, or the keys
/// are the same and the item stood in front.
pub open spec fn belongs_before(keys: Seq<Seq<char>>, i: int, j: int) -> bool {
    comes_before(keys[i], keys[j]) || (keys[i] == keys[j] && i < j)
}

/// `order` names each of the items once, in the order of their keys; items with the same key stay
/// in the order in which they were.
pub open spec fn stable_order(keys: Seq<Seq<char>>, order: Seq<int>) -> bool {
    &&& order.len() == keys.len()
    &&& forall|k: int| 0 <= k < order.len() ==> 0 <= #[trigger] order[k] < keys.len()
    &&& forall|i: int| 0 <= i < keys.len() ==> order.contains(i)
    &&& forall|k: int, m: int|
        0 <= k < m < order.len() ==> belongs_before(keys, #[trigger] order[k], #[trigger] order[m])
}

/// There is only one such order, so it decides where each item comes.
pub proof fn law_order_is_unique(keys: Seq<Seq<char>>, a: Seq<int>, b: Seq<int>)
    requires
        stable_order(keys, a),
        stable_order(keys, b),
    ensures
        a == b,
{
    assert forall|k: int| 0 <= k < a.len() implies a[k] == b[k] by {
        lemma_same_at(keys, a, b, k);
    }
    assert(a =~= b);
}

proof fn lemma_same_at(keys: Seq<Seq<char>>, a: Seq<int>, b: Seq<int>, k: int)
    requires
        stable_order(keys, a),
        stable_order(keys, b),
        0 <= k < a.len(),
    ensures
        a[k] == b[k],
    decreases k,
{
    assert forall|j: int| 0 <= j < k implies a[j] == b[j] by {
        lemma_same_at(keys, a, b, j);
    }
    if a[k] != b[k] {
        assert(b.contains(a[k]));
        let m = choose|m: int| 0 <= m < b.len() && b[m] == a[k];
        assert(a.contains(b[k]));
        let n = choose|n: int| 0 <= n < a.len() && a[n] == b[k];
        law_names_are_ordered(keys[a[k]], keys[b[k]]);
        law_names_are_ordered(keys[a[k]], keys[a[k]]);
        law_names_are_ordered(keys[b[k]], keys[b[k]]);
        if m < k {
            assert(a[m] == a[k]);
            assert(belongs_before(keys, a[m], a[k]));
        } else if n < k {
            assert(b[n] == b[k]);
            assert(belongs_before(keys, b[n], b[k]));
        } else {
            assert(m > k && n > k);
            assert(belongs_before(keys, b[k], b[m]));
            assert(belongs_before(keys, a[k], a[n]));
        }
    }
}

fn is_before(a: &[char], b: &[char]) -> (r: bool)
    ensures
        r == comes_before(a@, b@),
{
    let mut i: usize = 0;
    assert(a@.skip(0) == a@);
    assert(b@.skip(0) == b@);
    while i < a.len() && i < b.len() && a[i] == b[i]
        invariant
            i <= a.len(),
            i <= b.len(),
            comes_before(a@, b@) == comes_before(a@.skip(i as int), b@.skip(i as int)),
        decreases a.len() - i,
    {
        assert(a@.skip(i as int).drop_first() == a@.skip(i + 1));
        assert(b@.skip(i as int).drop_first() == b@.skip(i + 1));
        i += 1;
    }
    if i == b.len() {
        false
    } else if i == a.len() {
        true
    } else {
        a[i] < b[i]
    }
}

/// The keys as sequences of characters.
pub open spec fn chars_view(keys: Seq<Vec<char>>) -> Seq<Seq<char>> {
    keys.map_values(|k: Vec<char>| k@)
}

/// The numbers as integers.
pub open spec fn ints(order: Seq<usize>) -> Seq<int> {
    order.map_values(|i: usize| i as int)
}

/// The place for item number `i` among the items before it, which `order` names in order.
fn place_for(keys: &Vec<Vec<char>>, order: &Vec<usize>, i: usize) -> (at: usize)
    requires
        i < keys.len(),
        stable_order(chars_view(keys@).take(i as int), ints(order@)),
    ensures
        at <= order.len(),
        forall|k: int|
            0 <= k < at ==> belongs_before(chars_view(keys@), #[trigger] order@[k] as int, i as int),
        forall|k: int|
            at <= k < order.len() ==> belongs_before(
                chars_view(keys@),
                i as int,
                #[trigger] order@[k] as int,
            ),
{
    let ghost all = chars_view(keys@);
    let ghost first = all.take(i as int);
    assert forall|k: int| 0 <= k < order.len() implies 0 <= #[trigger] order@[k] < i && all[order@[k] as int]
        == first[order@[k] as int] by {
        assert(ints(order@)[k] == order@[k]);
    }
    assert forall|k: int, m: int| 0 <= k < m < order.len() implies belongs_before(
        all,
        #[trigger] order@[k] as int,
        #[trigger] order@[m] as int,
    ) by {
        assert(belongs_before(first, ints(order@)[k], ints(order@)[m]));
    }
    let mut low: usize = 0;
    let mut high: usize = order.len();
    while low < high
        invariant
            low <= high <= order.len(),
            i < keys.len(),
            all == chars_view(keys@),
            forall|k: int| 0 <= k < order.len() ==> 0 <= #[trigger] order@[k] < i,
            forall|k: int, m: int|
                0 <= k < m < order.len() ==> belongs_before(
                    all,
                    #[trigger] order@[k] as int,
                    #[trigger] order@[m] as int,
                ),
            forall|k: int| 0 <= k < low ==> belongs_before(all, #[trigger] order@[k] as int, i as int),
            forall|k: int|
                high <= k < order.len() ==> belongs_before(
                    all,
                    i as int,
                    #[trigger] order@[k] as int,
                ),
        decreases high - low,
    {
        let mid: usize = low + (high - low) / 2;
        let other: usize = order[mid];
        assert(all[other as int] == keys@[other as int]@);
        assert(all[i as int] == keys@[i as int]@);
        proof {
            law_names_are_ordered(all[i as int], all[other as int]);
        }
        if is_before(keys[i].as_slice(), keys[other].as_slice()) {
            assert forall|k: int| mid <= k < order.len() implies belongs_before(
                all,
                i as int,
                #[trigger] order@[k] as int,
            ) by {
                if mid < k {
                    assert(belongs_before(all, order@[mid as int] as int, order@[k] as int));
                    if comes_before(all[other as int], all[order@[k] as int]) {
                        law_order_carries_over(
                            all[i as int],
                            all[other as int],
                            all[order@[k] as int],
                        );
                    }
                }
            }
            high = mid;
        } else {
            assert forall|k: int| 0 <= k <= mid implies belongs_before(
                all,
                #[trigger] order@[k] as int,
                i as int,
            ) by {
                if k < mid {
                    assert(belongs_before(all, order@[k] as int, order@[mid as int] as int));
                    if comes_before(all[order@[k] as int], all[other as int]) && comes_before(
                        all[other as int],
                        all[i as int],
                    ) {
                        law_order_carries_over(
                            all[order@[k] as int],
                            all[other as int],
                            all[i as int],
                        );
                    }
                }
            }
            low = mid + 1;
        }
    }
    low
}

/// The numbers of the items in the order of their keys.
pub fn order_by_keys(keys: &Vec<Vec<char>>) -> (r: Vec<usize>)
    ensures
        stable_order(chars_view(keys@), ints(r@)),
{
    let mut order: Vec<usize> = Vec::new();
    let mut i: usize = 0;
    let ghost all = chars_view(keys@);
    while i < keys.len()
        invariant
            i <= keys.len(),
            all == chars_view(keys@),
            stable_order(all.take(i as int), ints(order@)),
        decreases keys.len() - i,
    {
        let at = place_for(keys, &order, i);
        let ghost before = order@;
        order.insert(at, i);
        proof {
            let first = all.take(i as int);
            let next = all.take(i + 1);
            let new = ints(order@);
            let prev = ints(before);
            assert(new == prev.insert(at as int, i as int));
            assert forall|k: int| 0 <= k < new.len() implies 0 <= #[trigger] new[k] < next.len() by {
                if k < at {
                    assert(new[k] == prev[k]);
                } else if k > at {
                    assert(new[k] == prev[k - 1]);
                }
            }
            assert forall|j: int| 0 <= j < next.len() implies new.contains(j) by {
                if j == i {
                    assert(new[at as int] == j);
                } else {
                    assert(prev.contains(j));
                    let k = choose|k: int| 0 <= k < prev.len() && prev[k] == j;
                    if k < at {
                        assert(new[k] == j);
                    } else {
                        assert(new[k + 1] == j);
                    }
                }
            }
            assert forall|k: int, m: int| 0 <= k < m < new.len() implies belongs_before(
                next,
                #[trigger] new[k],
                #[trigger] new[m],
            ) by {
                if k == at {
                    assert(new[m] == prev[m - 1] == before[m - 1]);
                    assert(belongs_before(all, i as int, before[m - 1] as int));
                } else if m == at {
                    assert(new[k] == prev[k] == before[k]);
                    assert(belongs_before(all, before[k] as int, i as int));
                } else {
                    let kk = if k < at {
                        k
                    } else {
                        k - 1
                    };
                    let mm = if m < at {
                        m
                    } else {
                        m - 1
                    };
                    assert(new[k] == prev[kk]);
                    assert(new[m] == prev[mm]);
                    assert(belongs_before(first, prev[kk], prev[mm]));
                }
            }
        }
        i += 1;
    }
    assert(all.take(i as int) == all);
    order
}

/// `sorted` holds the items of `items` in the stable order of `keys`.
pub open spec fn sorted_by<T>(items: Seq<T>, keys: Seq<Seq<char>>, sorted: Seq<T>) -> bool {
    exists|order: Seq<int>| #[trigger]
        stable_order(keys, order) && sorted == order.map_values(|i: int| items[i])
}

/// The photos in the order of the given keys, one for each photo. Photos with the same key stay in
/// the order in which they were.
pub fn sort_by_keys(photos: Vec<LivePhoto>, keys: &Vec<String>) -> (r: Vec<LivePhoto>)
    requires
        photos.len() == keys.len(),
    ensures
        sorted_by(photos@, text::strings_view(keys@), r@),
{
    let mut key_chars: Vec<Vec<char>> = Vec::new();
    let mut i: usize = 0;
    while i < keys.len()
        invariant
            i <= keys.len(),
            key_chars.len() == i,
            forall|k: int| 0 <= k < i ==> (#[trigger] key_chars@[k])@ == keys@[k]@,
        decreases keys.len() - i,
    {
        key_chars.push(chars_of(keys[i].as_str()));
        i += 1;
    }
    assert(chars_view(key_chars@) == text::strings_view(keys@));
    let order = order_by_keys(&key_chars);
    let ghost positions = ints(order@);
    assert forall|m: int| 0 <= m < order.len() implies 0 <= #[trigger] order@[m] < photos.len() by {
        assert(positions[m] == order@[m]);
    }
    let mut out: Vec<LivePhoto> = Vec::new();
    let mut k: usize = 0;
    while k < order.len()
        invariant
            k <= order.len(),
            out.len() == k,
            order.len() == photos.len(),
            forall|m: int| 0 <= m < order.len() ==> 0 <= #[trigger] order@[m] < photos.len(),
            forall|m: int| 0 <= m < k ==> #[trigger] out@[m] == photos@[order@[m] as int],
        decreases order.len() - k,
    {
        out.push(photos[order[k]].clone());
        k += 1;
    }
    assert(out@ == positions.map_values(|i: int| photos@[i]));
    out
}

/// The names of the photos in small letters.
pub open spec fn name_keys(photos: Seq<LivePhotoView>) -> Seq<Seq<char>> {
    photos.map_values(|p: LivePhotoView| lowercase::unicode_lowercase(p.name))
}

/// `sorted` holds the photos of `photos` in the order of their names in small letters; photos with
/// the same name stay in the order in which they were.
pub open spec fn in_name_order(photos: Seq<LivePhotoView>, sorted: Seq<LivePhotoView>) -> bool {
    sorted_by(photos, name_keys(photos), sorted)
}

proof fn lemma_sorted_views(
    photos: Seq<LivePhoto>,
    keys: Seq<Seq<char>>,
    sorted: Seq<LivePhoto>,
)
    requires
        keys.len() == photos.len(),
        sorted_by(photos, keys, sorted),
    ensures
        sorted_by(photos::photos_view(photos), keys, photos::photos_view(sorted)),
{
    let order = choose|order: Seq<int>| #[trigger]
        stable_order(keys, order) && sorted == order.map_values(|i: int| photos[i]);
    let views = photos::photos_view(photos);
    assert(photos::photos_view(sorted) =~= order.map_values(|i: int| views[i])) by {
        assert forall|k: int| 0 <= k < order.len() implies photos::photos_view(sorted)[k]
            == views[order[k]] by {}
    }
}

/// The photos in the order of their names in small letters. Photos with the same name stay in the
/// order in which they were.
pub fn sort_photos(photos: Vec<LivePhoto>) -> (r: Vec<LivePhoto>)
    ensures
        in_name_order(photos::photos_view(photos@), photos::photos_view(r@)),
{
    let ghost names = name_keys(photos::photos_view(photos@));
    let mut keys: Vec<String> = Vec::new();
    let mut i: usize = 0;
    while i < photos.len()
        invariant
            i <= photos.len(),
            keys.len() == i,
            forall|k: int|
                0 <= k < i ==> (#[trigger] keys@[k])@ == lowercase::unicode_lowercase(
                    photos@[k].name@,
                ),
        decreases photos.len() - i,
    {
        keys.push(photos[i].name.as_str().to_lowercase());
        i += 1;
    }
    assert(text::strings_view(keys@) == names);
    let sorted = sort_by_keys(photos, &keys);
    proof {
        lemma_sorted_views(photos@, names, sorted@);
    }
    sorted
}

/// Sorting keeps every photo, adds none, and leaves no photo behind one whose name comes later.
pub proof fn law_sorting_keeps_photos(photos: Seq<LivePhotoView>, sorted: Seq<LivePhotoView>)
    requires
        in_name_order(photos, sorted),
    ensures
        sorted.len() == photos.len(),
        sorted.to_multiset() == photos.to_multiset(),
        forall|i: int, j: int|
            0 <= i < j < sorted.len() ==> !comes_before(
                lowercase::unicode_lowercase((#[trigger] sorted[j]).name),
                lowercase::unicode_lowercase((#[trigger] sorted[i]).name),
            ),
{
    let keys = name_keys(photos);
    let order = choose|order: Seq<int>| #[trigger]
        stable_order(keys, order) && sorted == order.map_values(|i: int| photos[i]);
    assert forall|i: int, j: int| 0 <= i < j < sorted.len() implies !comes_before(
        lowercase::unicode_lowercase((#[trigger] sorted[j]).name),
        lowercase::unicode_lowercase((#[trigger] sorted[i]).name),
    ) by {
        assert(belongs_before(keys, order[i], order[j]));
        law_names_are_ordered(keys[order[i]], keys[order[j]]);
        law_names_are_ordered(keys[order[i]], keys[order[i]]);
    }
    lemma_same_items(photos, keys, order);
}

/// There is one way to sort photos: what was sorted twice is the same.
pub proof fn law_one_sorted_list(
    photos: Seq<LivePhotoView>,
    a: Seq<LivePhotoView>,
    b: Seq<LivePhotoView>,
)
    requires
        in_name_order(photos, a),
        in_name_order(photos, b),
    ensures
        a == b,
{
    let keys = name_keys(photos);
    let order_a = choose|order: Seq<int>| #[trigger]
        stable_order(keys, order) && a == order.map_values(|i: int| photos[i]);
    let order_b = choose|order: Seq<int>| #[trigger]
        stable_order(keys, order) && b == order.map_values(|i: int| photos[i]);
    law_order_is_unique(keys, order_a, order_b);
}

proof fn lemma_same_items<T>(items: Seq<T>, keys: Seq<Seq<char>>, order: Seq<int>)
    requires
        stable_order(keys, order),
        keys.len() == items.len(),
    ensures
        order.map_values(|i: int| items[i]).to_multiset() == items.to_multiset(),
{
    assert(order.no_duplicates()) by {
        assert forall|i: int, j: int| 0 <= i < order.len() && 0 <= j < order.len() && i
            != j implies order[i] != order[j] by {
            law_names_are_ordered(keys[order[i]], keys[order[i]]);
            if i < j {
                assert(belongs_before(keys, order[i], order[j]));
            } else {
                assert(belongs_before(keys, order[j], order[i]));
            }
        }
    }
    lemma_rearranged(items, order);
}

proof fn lemma_rearranged<T>(items: Seq<T>, order: Seq<int>)
    requires
        order.len() == items.len(),
        order.no_duplicates(),
        forall|k: int| 0 <= k < order.len() ==> 0 <= #[trigger] order[k] < items.len(),
        forall|i: int| 0 <= i < items.len() ==> order.contains(i),
    ensures
        order.map_values(|i: int| items[i]).to_multiset() == items.to_multiset(),
    decreases items.len(),
{
    let mapped = order.map_values(|i: int| items[i]);
    if items.len() == 0 {
        assert(mapped == items);
    } else {
        let n = items.len() - 1;
        assert(order.contains(n));
        let k = choose|k: int| 0 <= k < order.len() && order[k] == n;
        let rest = order.remove(k);
        let fewer = items.drop_last();
        assert forall|m: int| 0 <= m < rest.len() implies 0 <= #[trigger] rest[m] < fewer.len() by {
            let old_m = if m < k {
                m
            } else {
                m + 1
            };
            assert(rest[m] == order[old_m]);
        }
        assert forall|i: int| 0 <= i < fewer.len() implies rest.contains(i) by {
            assert(order.contains(i));
            let m = choose|m: int| 0 <= m < order.len() && order[m] == i;
            if m < k {
                assert(rest[m] == i);
            } else {
                assert(rest[m - 1] == i);
            }
        }
        lemma_rearranged(fewer, rest);
        let mapped_rest = rest.map_values(|i: int| fewer[i]);
        assert(mapped == mapped_rest.insert(k, items.last()));
        vstd::seq_lib::to_multiset_insert(mapped_rest, k, items.last());
        vstd::seq_lib::to_multiset_build(fewer, items.last());
        assert(items == fewer.push(items.last()));
    }
}

/// A text comes before another exactly where it is the beginning of the longer one, or where the
/// first characters in which they differ are in the order of their numbers.
pub proof fn law_first_difference_decides(a: Seq<char>, b: Seq<char>)
    ensures
        comes_before(a, b) <==> exists|n: int|
            {
                &&& 0 <= n <= a.len()
                &&& n < b.len()
                &&& #[trigger] a.take(n) == b.take(n)
                &&& n == a.len() || (a[n] as int) < (b[n] as int)
            },
    decreases a.len(),
{
    if a.len() > 0 && b.len() > 0 && a[0] == b[0] {
        let (c, d) = (a.drop_first(), b.drop_first());
        law_first_difference_decides(c, d);
        if comes_before(a, b) {
            let n = choose|n: int|
                {
                    &&& 0 <= n <= c.len()
                    &&& n < d.len()
                    &&& #[trigger] c.take(n) == d.take(n)
                    &&& n == c.len() || (c[n] as int) < (d[n] as int)
                };
            assert(a.take(n + 1) =~= seq![a[0]] + c.take(n));
            assert(b.take(n + 1) =~= seq![b[0]] + d.take(n));
            assert(a.take(n + 1) == b.take(n + 1));
        }
        if exists|n: int| 0 <= n <= a.len() && n < b.len() && #[trigger] a.take(n) == b.take(n) && (n
            == a.len() || (a[n] as int) < (b[n] as int)) {
            let n = choose|n: int|
                0 <= n <= a.len() && n < b.len() && #[trigger] a.take(n) == b.take(n) && (n
                    == a.len() || (a[n] as int) < (b[n] as int));
            assert(n > 0);
            assert(c.take(n - 1) =~= a.take(n).drop_first());
            assert(d.take(n - 1) =~= b.take(n).drop_first());
            assert(c.take(n - 1) == d.take(n - 1));
        }
    } else {
        assert(a.take(0) =~= b.take(0));
        if exists|n: int| 0 <= n <= a.len() && n < b.len() && #[trigger] a.take(n) == b.take(n) && (n
            == a.len() || (a[n] as int) < (b[n] as int)) {
            let n = choose|n: int|
                0 <= n <= a.len() && n < b.len() && #[trigger] a.take(n) == b.take(n) && (n
                    == a.len() || (a[n] as int) < (b[n] as int));
            if n > 0 {
                assert(a.take(n)[0] == b.take(n)[0]);
            }
        }
    }
}

/// The photos of a sorted list come from places of their own in the unsorted one, and of two photos
/// whose names in small letters are the same the one that stood in front stays in front.
pub proof fn law_same_names_stay_in_order(
    photos: Seq<LivePhotoView>,
    sorted: Seq<LivePhotoView>,
)
    requires
        in_name_order(photos, sorted),
    ensures
        exists|from: Seq<int>|
            {
                &&& #[trigger] from.len() == sorted.len()
                &&& forall|k: int|
                    0 <= k < sorted.len() ==> 0 <= #[trigger] from[k] < photos.len() && sorted[k]
                        == photos[from[k]]
                &&& forall|k: int, m: int|
                    0 <= k < m < sorted.len() ==> #[trigger] from[k] != #[trigger] from[m]
                &&& forall|k: int, m: int|
                    0 <= k < m < sorted.len() && lowercase::unicode_lowercase(
                        photos[#[trigger] from[k]].name,
                    ) == lowercase::unicode_lowercase(photos[#[trigger] from[m]].name) ==> from[k]
                        < from[m]
            },
{
    let keys = name_keys(photos);
    let from = choose|order: Seq<int>| #[trigger]
        stable_order(keys, order) && sorted == order.map_values(|i: int| photos[i]);
    assert forall|k: int, m: int| 0 <= k < m < sorted.len() implies #[trigger] from[k]
        != #[trigger] from[m] && (keys[from[k]] == keys[from[m]] ==> from[k] < from[m]) by {
        assert(belongs_before(keys, from[k], from[m]));
        law_names_are_ordered(keys[from[k]], keys[from[k]]);
    }
    assert forall|k: int, m: int|
        0 <= k < m < sorted.len() && lowercase::unicode_lowercase(photos[#[trigger] from[k]].name)
            == lowercase::unicode_lowercase(photos[#[trigger] from[m]].name) implies from[k]
        < from[m] by {
        assert(keys[from[k]] == keys[from[m]]);
    }
    assert(from.len() == sorted.len());
}

} // verus!
