//! The order in which the files of a directory are listed: by the bytes of their paths.
use vstd::prelude::*;

verus! {

/// Does `a` come before `b`, or is it the same, byte by byte from the front?
pub open spec fn lex_le(a: Seq<u8>, b: Seq<u8>) -> bool
    decreases a.len(),
{
    if a.len() == 0 {
        true
    } else if b.len() == 0 {
        false
    } else if a[0] != b[0] {
        a[0] < b[0]
    } else {
        lex_le(a.skip(1), b.skip(1))
    }
}

pub proof fn lemma_lex_total(a: Seq<u8>, b: Seq<u8>)
    ensures
        lex_le(a, b) || lex_le(b, a),
    decreases a.len(),
{
    if a.len() > 0 && b.len() > 0 {
        lemma_lex_total(a.skip(1), b.skip(1));
    }
}

pub proof fn lemma_lex_transitive(a: Seq<u8>, b: Seq<u8>, c: Seq<u8>)
    requires
        lex_le(a, b),
        lex_le(b, c),
    ensures
        lex_le(a, c),
    decreases a.len(),
{
    if a.len() > 0 && b.len() > 0 && c.len() > 0 {
        if a[0] == b[0] && b[0] == c[0] {
            lemma_lex_transitive(a.skip(1), b.skip(1), c.skip(1));
        }
    }
}

/// Compares two byte strings from the front.
pub fn comes_first(a: &[u8], b: &[u8]) -> (r: bool)
    ensures
        r == lex_le(a@, b@),
{
    let n: usize = a.len();
    let m: usize = b.len();
    let mut i: usize = 0;
    assert(a@.skip(0) =~= a@);
    assert(b@.skip(0) =~= b@);
    while i < n && i < m
        invariant
            i <= n,
            i <= m,
            n == a@.len(),
            m == b@.len(),
            lex_le(a@, b@) == lex_le(a@.skip(i as int), b@.skip(i as int)),
        decreases n - i,
    {
        if a[i] != b[i] {
            return a[i] < b[i];
        }
        assert(a@.skip(i as int).skip(1) =~= a@.skip(i + 1));
        assert(b@.skip(i as int).skip(1) =~= b@.skip(i + 1));
        i = i + 1;
    }
    i == n
}

/// Is every key in its place?
pub open spec fn ordered(keys: Seq<Seq<u8>>) -> bool {
    forall|i: int, j: int| 0 <= i < j < keys.len() ==> lex_le(#[trigger] keys[i], #[trigger] keys[j])
}

/// Where a key belongs among ordered ones: behind all that do not come after it.
pub open spec fn place_for(keys: Seq<Seq<u8>>, key: Seq<u8>) -> int
    decreases keys.len(),
{
    if keys.len() == 0 {
        0
    } else if lex_le(keys.last(), key) {
        keys.len() as int
    } else {
        place_for(keys.drop_last(), key)
    }
}

/// The keys at some indices.
pub open spec fn keys_at(keys: Seq<Seq<u8>>, order: Seq<int>) -> Seq<Seq<u8>> {
    Seq::new(order.len(), |i: int| keys[order[i]])
}

/// The indices of keys in their order; equal keys keep the order that they came in.
pub open spec fn order_of(keys: Seq<Seq<u8>>) -> Seq<int>
    decreases keys.len(),
{
    if keys.len() == 0 {
        Seq::empty()
    } else {
        let init = order_of(keys.drop_last());
        let at = place_for(keys_at(keys, init), keys.last());
        init.insert(at, keys.len() - 1)
    }
}

proof fn lemma_place_for(keys: Seq<Seq<u8>>, key: Seq<u8>)
    requires
        ordered(keys),
    ensures
        0 <= place_for(keys, key) <= keys.len(),
        forall|i: int| 0 <= i < place_for(keys, key) ==> lex_le(#[trigger] keys[i], key),
        forall|i: int| place_for(keys, key) <= i < keys.len() ==> !lex_le(#[trigger] keys[i], key),
    decreases keys.len(),
{
    if keys.len() > 0 {
        let init = keys.drop_last();
        assert forall|i: int, j: int| 0 <= i < j < init.len() implies lex_le(
            #[trigger] init[i],
            #[trigger] init[j],
        ) by {
            assert(lex_le(keys[i], keys[j]));
        }
        lemma_place_for(init, key);
        if lex_le(keys.last(), key) {
            assert forall|i: int| 0 <= i < keys.len() implies lex_le(#[trigger] keys[i], key) by {
                if i < keys.len() - 1 {
                    assert(lex_le(keys[i], keys[keys.len() - 1]));
                    lemma_lex_transitive(keys[i], keys.last(), key);
                }
            }
        } else {
            assert forall|i: int| 0 <= i < place_for(keys, key) implies lex_le(
                #[trigger] keys[i],
                key,
            ) by {
                assert(init[i] == keys[i]);
            }
            assert forall|i: int| place_for(keys, key) <= i < keys.len() implies !lex_le(
                #[trigger] keys[i],
                key,
            ) by {
                if i < init.len() {
                    assert(init[i] == keys[i]);
                }
            }
        }
    }
}

/// The order lists every index once, and the keys in order.
pub proof fn lemma_order_of(keys: Seq<Seq<u8>>)
    ensures
        order_of(keys).len() == keys.len(),
        order_of(keys).no_duplicates(),
        forall|i: int|
            0 <= i < keys.len() ==> 0 <= #[trigger] order_of(keys)[i] < keys.len(),
        ordered(keys_at(keys, order_of(keys))),
    decreases keys.len(),
{
    if keys.len() > 0 {
        let init = order_of(keys.drop_last());
        let last = keys.len() - 1;
        lemma_order_of(keys.drop_last());
        let before = keys_at(keys, init);
        assert(before =~= keys_at(keys.drop_last(), init));
        lemma_place_for(before, keys.last());
        let at = place_for(before, keys.last());
        let order = order_of(keys);
        assert(order == init.insert(at, last));
        let sorted = keys_at(keys, order);
        assert forall|i: int| 0 <= i < keys.len() implies 0 <= #[trigger] order[i] < keys.len() by {
            if i < at {
                assert(order[i] == init[i]);
            } else if i > at {
                assert(order[i] == init[i - 1]);
            }
        }
        assert forall|i: int, j: int| 0 <= i < j < order.len() implies order[i] != order[j] by {
            let a = if i < at {
                init[i]
            } else {
                init[i - 1]
            };
            let b = if j < at {
                init[j]
            } else {
                init[j - 1]
            };
        }
        assert forall|i: int, j: int| 0 <= i < j < sorted.len() implies lex_le(
            #[trigger] sorted[i],
            #[trigger] sorted[j],
        ) by {
            if i < at && j < at {
                assert(sorted[i] == before[i] && sorted[j] == before[j]);
            } else if i < at && j == at {
                assert(sorted[i] == before[i]);
            } else if i < at {
                assert(sorted[i] == before[i] && sorted[j] == before[j - 1]);
            } else if i == at {
                assert(sorted[j] == before[j - 1]);
                lemma_lex_total(before[j - 1], keys.last());
            } else {
                assert(sorted[i] == before[i - 1] && sorted[j] == before[j - 1]);
            }
        }
    }
}

/// The keys that a list of byte strings stands for.
pub open spec fn keys_of(list: Seq<Vec<u8>>) -> Seq<Seq<u8>> {
    Seq::new(list.len(), |i: int| list[i]@)
}

/// Finds the order of byte strings.
pub fn sort_order(keys: &[Vec<u8>]) -> (order: Vec<usize>)
    ensures
        order@.len() == keys@.len(),
        forall|i: int| 0 <= i < order@.len() ==> (#[trigger] order@[i]) < keys@.len(),
        Seq::new(order@.len(), |i: int| order@[i] as int) == order_of(keys_of(keys@)),
{
    let ghost all = keys_of(keys@);
    let n: usize = keys.len();
    let mut order: Vec<usize> = Vec::new();
    let mut i: usize = 0;
    assert(Seq::new(order@.len(), |k: int| order@[k] as int) =~= order_of(all.take(0)));
    while i < n
        invariant
            i <= n,
            n == keys@.len(),
            all == keys_of(keys@),
            order@.len() == i,
            forall|k: int| 0 <= k < i ==> (#[trigger] order@[k]) < i,
            Seq::new(order@.len(), |k: int| order@[k] as int) == order_of(all.take(i as int)),
        decreases n - i,
    {
        let ghost done = order_of(all.take(i as int));
        let ghost before = keys_at(all, done);
        proof {
            lemma_order_of(all.take(i as int));
            assert(before =~= keys_at(all.take(i as int), done));
            lemma_place_for(before, all[i as int]);
            assert(all.take(i + 1).drop_last() =~= all.take(i as int));
            assert(keys_at(all.take(i + 1), done) =~= before);
        }
        let ghost at = place_for(before, all[i as int]);
        let mut low: usize = 0;
        let mut high: usize = i;
        while low < high
            invariant
                low <= high <= i,
                i < n,
                n == keys@.len(),
                all == keys_of(keys@),
                order@.len() == i,
                forall|k: int| 0 <= k < i ==> (#[trigger] order@[k]) < i,
                done.len() == i,
                forall|k: int| 0 <= k < i ==> #[trigger] done[k] == order@[k],
                before == keys_at(all, done),
                low <= at <= high,
                forall|k: int| 0 <= k < at ==> lex_le(#[trigger] before[k], all[i as int]),
                forall|k: int| at <= k < i ==> !lex_le(#[trigger] before[k], all[i as int]),
            decreases high - low,
        {
            let mid: usize = low + (high - low) / 2;
            let k: usize = order[mid];
            assert(done[mid as int] == k);
            assert(before[mid as int] == keys@[k as int]@);
            if comes_first(keys[k].as_slice(), keys[i].as_slice()) {
                low = mid + 1;
            } else {
                high = mid;
            }
        }
        order.insert(low, i);
        i = i + 1;
        proof {
            let now = Seq::new(order@.len(), |k: int| order@[k] as int);
            assert(now =~= done.insert(at, i - 1));
        }
    }
    assert(all.take(n as int) =~= all);
    order
}

/// Bytes are compared from the front: the first one that differs decides, and where there is none,
/// the shorter string comes first.
pub proof fn law_first_difference_decides(p: Seq<u8>, x: u8, a: Seq<u8>, y: u8, b: Seq<u8>)
    ensures
        x < y ==> lex_le(p + seq![x] + a, p + seq![y] + b) && !lex_le(
            p + seq![y] + b,
            p + seq![x] + a,
        ),
        lex_le(p, p + a),
        a.len() > 0 ==> !lex_le(p + a, p),
    decreases p.len(),
{
    if p.len() == 0 {
        assert((p + seq![x] + a)[0] == x);
        assert((p + seq![y] + b)[0] == y);
    } else {
        law_first_difference_decides(p.skip(1), x, a, y, b);
        assert((p + seq![x] + a).skip(1) =~= p.skip(1) + seq![x] + a);
        assert((p + seq![y] + b).skip(1) =~= p.skip(1) + seq![y] + b);
        assert((p + a).skip(1) =~= p.skip(1) + a);
    }
}

/// Every index has a place in the order.
pub proof fn lemma_order_has(keys: Seq<Seq<u8>>, k: int) -> (i: int)
    requires
        0 <= k < keys.len(),
    ensures
        0 <= i < order_of(keys).len(),
        order_of(keys)[i] == k,
    decreases keys.len(),
{
    let init = order_of(keys.drop_last());
    let before = keys_at(keys, init);
    lemma_order_of(keys);
    lemma_order_of(keys.drop_last());
    assert(before =~= keys_at(keys.drop_last(), init));
    lemma_place_for(before, keys.last());
    let at = place_for(before, keys.last());
    assert(order_of(keys) == init.insert(at, keys.len() - 1));
    if k == keys.len() - 1 {
        assert(order_of(keys)[at] == k);
        at
    } else {
        let i = lemma_order_has(keys.drop_last(), k);
        if i < at {
            assert(order_of(keys)[i] == init[i]);
            i
        } else {
            assert(order_of(keys)[i + 1] == init[i]);
            i + 1
        }
    }
}

/// The order lists every index once, goes by the keys, and leaves equal keys as they came.
pub proof fn law_order_is_sorted_and_stable(keys: Seq<Seq<u8>>)
    ensures
        order_of(keys).len() == keys.len(),
        forall|i: int| 0 <= i < keys.len() ==> 0 <= #[trigger] order_of(keys)[i] < keys.len(),
        forall|i: int, j: int|
            0 <= i < j < keys.len() ==> {
                let a = #[trigger] order_of(keys)[i];
                let b = #[trigger] order_of(keys)[j];
                &&& a != b
                &&& lex_le(keys[a], keys[b])
                &&& keys[a] == keys[b] ==> a < b
            },
    decreases keys.len(),
{
    lemma_order_of(keys);
    let order = order_of(keys);
    assert forall|i: int, j: int| 0 <= i < j < keys.len() implies {
        let a = #[trigger] order[i];
        let b = #[trigger] order[j];
        a != b && lex_le(keys[a], keys[b])
    } by {
        assert(lex_le(keys_at(keys, order)[i], keys_at(keys, order)[j]));
    }
    if keys.len() > 0 {
        let fewer = keys.drop_last();
        let init = order_of(fewer);
        let last = keys.len() - 1;
        law_order_is_sorted_and_stable(fewer);
        lemma_order_of(fewer);
        let before = keys_at(keys, init);
        assert(before =~= keys_at(fewer, init));
        lemma_place_for(before, keys.last());
        let at = place_for(before, keys.last());
        assert(order == init.insert(at, last));
        assert forall|i: int, j: int| 0 <= i < j < keys.len() implies {
            let a = #[trigger] order[i];
            let b = #[trigger] order[j];
            keys[a] == keys[b] ==> a < b
        } by {
            if keys[order[i]] == keys[order[j]] {
                if i == at {
                    assert(order[j] == init[j - 1]);
                    assert(before[j - 1] == keys[order[j]]);
                    lemma_lex_total(keys.last(), keys.last());
                } else if j == at {
                    assert(order[i] == init[i]);
                } else {
                    let x = if i < at {
                        i
                    } else {
                        i - 1
                    };
                    let y = if j < at {
                        j
                    } else {
                        j - 1
                    };
                    assert(order[i] == init[x] && order[j] == init[y]);
                    assert(fewer[init[x]] == keys[init[x]] && fewer[init[y]] == keys[init[y]]);
                }
            }
        }
    }
}

} // verus!
