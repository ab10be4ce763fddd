//! The order in which names are listed: Chinese characters by their pinyin,
//! runs of digits as numbers.

use crate::natural::{compare_names, natural_order, Order};
use pinyin::ToPinyin;
use vstd::prelude::*;
use vstd::string::StringExecFns;

verus! {

/// The pinyin of the character `c`, without tone marks, where it has one.
pub uninterp spec fn pinyin_syllable(c: char) -> Option<Seq<char>>;

/// `pinyin::ToPinyin::to_pinyin` looks a character up in the crate's table
/// and `Pinyin::plain` gives the syllable without tone marks. The contract
/// gives the syllable a name: it depends on the character alone.
#[verifier::external_body]
fn pinyin_plain(c: char) -> (r: Option<String>)
    ensures
        match r {
            Some(s) => pinyin_syllable(c) == Some(s@),
            None => pinyin_syllable(c) is None,
        },
{
    c.to_pinyin().map(|p| p.plain().to_string())
}

/// The text `s` with each character that has a pinyin replaced by it; the
/// other characters stay as they are.
pub open spec fn pin_yin_of(s: Seq<char>) -> Seq<char>
    decreases s.len(),
{
    if s.len() == 0 {
        Seq::empty()
    } else {
        pin_yin_of(s.drop_last()) + (match pinyin_syllable(s.last()) {
            Some(p) => p,
            None => seq![s.last()],
        })
    }
}

/// The text `input` with Chinese characters written in pinyin.
pub fn get_pin_yin(input: &str) -> (r: String)
    ensures
        r@ == pin_yin_of(input@),
{
    let chars = crate::text::chars_of(input);
    let mut out = String::new();
    let mut i: usize = 0;
    assert(chars@.take(0) =~= Seq::<char>::empty());
    while i < chars.len()
        invariant
            i <= chars@.len(),
            out@ == pin_yin_of(chars@.take(i as int)),
        decreases chars@.len() - i,
    {
        assert(chars@.take(i + 1).drop_last() =~= chars@.take(i as int));
        assert(chars@.take(i + 1).last() == chars@[i as int]);
        match pinyin_plain(chars[i]) {
            Some(p) => {
                out.append(p.as_str());
            },
            None => {
                out.push(chars[i]);
                assert(out@ =~= pin_yin_of(chars@.take(i as int)) + seq![chars@[i as int]]);
            },
        }
        i += 1;
    }
    assert(chars@.take(chars@.len() as int) =~= chars@);
    out
}

/// Whether the name `a` comes before the name `b`.
pub open spec fn goes_before(a: Seq<char>, b: Seq<char>) -> bool {
    natural_order(a, b) == Order::Less
}

/// Whether `b` may stand directly behind `a` in a list in order: `a` comes
/// before `b`, or at least `b` does not come before `a`.
pub open spec fn may_follow(a: Seq<char>, b: Seq<char>) -> bool {
    goes_before(a, b) || !goes_before(b, a)
}

/// The list `order` of indices into `keys` with the index `i` put in: it
/// goes in front of the indices at the end of the list whose names it comes
/// before.
pub open spec fn insert_index(keys: Seq<Seq<char>>, order: Seq<int>, i: int) -> Seq<int>
    decreases order.len(),
{
    if order.len() > 0 && goes_before(keys[i], keys[order.last()]) {
        insert_index(keys, order.drop_last(), i).push(order.last())
    } else {
        order.push(i)
    }
}

/// The indices of the first `n` names of `keys` in the order of the names.
/// Names of which none comes before the other keep their order.
pub open spec fn collated(keys: Seq<Seq<char>>, n: int) -> Seq<int>
    decreases n,
{
    if n <= 0 {
        Seq::empty()
    } else {
        insert_index(keys, collated(keys, n - 1), n - 1)
    }
}

/// Whether each index of `order` but the first may follow the one before it.
pub open spec fn in_order(keys: Seq<Seq<char>>, order: Seq<int>) -> bool {
    forall|p: int, q: int|
        0 <= p && q == p + 1 && q < order.len() ==> may_follow(
            keys[#[trigger] order[p]],
            keys[#[trigger] order[q]],
        )
}

/// Whether `order` holds each of the numbers below `n` once and nothing
/// else.
pub open spec fn is_arrangement(order: Seq<int>, n: int) -> bool {
    &&& order.len() == n
    &&& forall|p: int| 0 <= p < order.len() ==> 0 <= #[trigger] order[p] < n
    &&& forall|p: int, q: int|
        0 <= p < q < order.len() ==> #[trigger] order[p] != #[trigger] order[q]
    &&& forall|k: int| 0 <= k < n ==> order.contains(k)
}

/// Where the indices from position `p` on are those whose names `i` comes
/// before, and the one in front of `p` is not, `i` goes in at `p`.
pub proof fn lemma_insert_index_at(keys: Seq<Seq<char>>, order: Seq<int>, i: int, p: int)
    requires
        0 <= p <= order.len(),
        forall|q: int| p <= q < order.len() ==> goes_before(keys[i], keys[#[trigger] order[q]]),
        p > 0 ==> !goes_before(keys[i], keys[order[p - 1]]),
    ensures
        insert_index(keys, order, i) == order.insert(p, i),
    decreases order.len(),
{
    if p < order.len() {
        let front = order.drop_last();
        assert(goes_before(keys[i], keys[order[order.len() - 1]]));
        assert forall|q: int| p <= q < front.len() implies goes_before(
            keys[i],
            keys[#[trigger] front[q]],
        ) by {
            assert(front[q] == order[q]);
        }
        if p > 0 {
            assert(front[p - 1] == order[p - 1]);
        }
        lemma_insert_index_at(keys, front, i, p);
        assert(front.insert(p, i).push(order.last()) =~= order.insert(p, i));
    } else {
        assert(order.push(i) =~= order.insert(p, i));
        if order.len() > 0 {
            assert(order.last() == order[p - 1]);
        }
    }
}

/// Putting an index in keeps a list in order, and keeps it an arrangement
/// where the index is the next number.
pub proof fn lemma_insert_index(keys: Seq<Seq<char>>, order: Seq<int>, i: int)
    requires
        in_order(keys, order),
    ensures
        in_order(keys, insert_index(keys, order, i)),
        insert_index(keys, order, i).len() == order.len() + 1,
        insert_index(keys, order, i).last() == i || (order.len() > 0 && insert_index(
            keys,
            order,
            i,
        ).last() == order.last() && goes_before(keys[i], keys[order.last()])),
    decreases order.len(),
{
    let r = insert_index(keys, order, i);
    if order.len() > 0 && goes_before(keys[i], keys[order.last()]) {
        let front = order.drop_last();
        let rf = insert_index(keys, front, i);
        assert(in_order(keys, front)) by {
            assert forall|p: int, q: int| 0 <= p && q == p + 1 && q < front.len() implies may_follow(
                keys[#[trigger] front[p]],
                keys[#[trigger] front[q]],
            ) by {
                assert(front[p] == order[p] && front[q] == order[q]);
            }
        }
        lemma_insert_index(keys, front, i);
        assert(r == rf.push(order.last()));
        assert forall|p: int, q: int| 0 <= p && q == p + 1 && q < r.len() implies may_follow(
            keys[#[trigger] r[p]],
            keys[#[trigger] r[q]],
        ) by {
            if q < rf.len() {
                assert(r[p] == rf[p] && r[q] == rf[q]);
            } else {
                assert(r[p] == rf.last());
                assert(r[q] == order.last());
                if rf.last() != i {
                    assert(front.last() == order[order.len() - 2]);
                    assert(order.last() == order[order.len() - 1]);
                }
            }
        }
    } else {
        assert(r == order.push(i));
        assert forall|p: int, q: int| 0 <= p && q == p + 1 && q < r.len() implies may_follow(
            keys[#[trigger] r[p]],
            keys[#[trigger] r[q]],
        ) by {
            if q < order.len() {
                assert(r[p] == order[p] && r[q] == order[q]);
            } else {
                assert(r[p] == order.last());
            }
        }
    }
}

/// Each entry of a list with `i` put in is `i` or an entry of the list.
pub proof fn lemma_insert_index_holds(keys: Seq<Seq<char>>, order: Seq<int>, i: int, p: int)
    requires
        0 <= p < order.len() + 1,
    ensures
        insert_index(keys, order, i).len() == order.len() + 1,
        insert_index(keys, order, i)[p] == i || order.contains(insert_index(keys, order, i)[p]),
    decreases order.len(),
{
    lemma_insert_index_length(keys, order, i);
    if order.len() > 0 && goes_before(keys[i], keys[order.last()]) {
        let front = order.drop_last();
        lemma_insert_index_length(keys, front, i);
        if p < order.len() {
            lemma_insert_index_holds(keys, front, i, p);
            let v = insert_index(keys, front, i)[p];
            if v != i {
                let k = choose|k: int| 0 <= k < front.len() && front[k] == v;
                assert(order[k] == v);
            }
        } else {
            assert(order[order.len() - 1] == order.last());
        }
    } else {
        if p < order.len() {
            assert(order[p] == insert_index(keys, order, i)[p]);
        }
    }
}

/// A list with `i` put in holds `i` and whatever the list holds.
pub proof fn lemma_insert_index_keeps(keys: Seq<Seq<char>>, order: Seq<int>, i: int, v: int)
    requires
        order.contains(v) || v == i,
    ensures
        insert_index(keys, order, i).contains(v),
    decreases order.len(),
{
    let r = insert_index(keys, order, i);
    lemma_insert_index_length(keys, order, i);
    if order.len() > 0 && goes_before(keys[i], keys[order.last()]) {
        let front = order.drop_last();
        let rf = insert_index(keys, front, i);
        lemma_insert_index_length(keys, front, i);
        if v != i && order.last() == v {
            assert(r[r.len() - 1] == v);
        } else {
            if v != i {
                let k = choose|k: int| 0 <= k < order.len() && order[k] == v;
                assert(front[k] == v);
            }
            lemma_insert_index_keeps(keys, front, i, v);
            let k = choose|k: int| 0 <= k < rf.len() && rf[k] == v;
            assert(r[k] == v);
        }
    } else {
        if v == i {
            assert(r[r.len() - 1] == v);
        } else {
            let k = choose|k: int| 0 <= k < order.len() && order[k] == v;
            assert(r[k] == v);
        }
    }
}

/// A list with an index put in is longer by one.
pub proof fn lemma_insert_index_length(keys: Seq<Seq<char>>, order: Seq<int>, i: int)
    ensures
        insert_index(keys, order, i).len() == order.len() + 1,
    decreases order.len(),
{
    if order.len() > 0 && goes_before(keys[i], keys[order.last()]) {
        lemma_insert_index_length(keys, order.drop_last(), i);
    }
}

/// A list without repetitions that does not hold `i` has none with `i` put
/// in.
pub proof fn lemma_insert_index_distinct(keys: Seq<Seq<char>>, order: Seq<int>, i: int)
    requires
        !order.contains(i),
        forall|p: int, q: int|
            0 <= p < q < order.len() ==> #[trigger] order[p] != #[trigger] order[q],
    ensures
        forall|p: int, q: int|
            0 <= p < q < order.len() + 1 ==> #[trigger] insert_index(keys, order, i)[p]
                != #[trigger] insert_index(keys, order, i)[q],
    decreases order.len(),
{
    let r = insert_index(keys, order, i);
    lemma_insert_index_length(keys, order, i);
    if order.len() > 0 && goes_before(keys[i], keys[order.last()]) {
        let front = order.drop_last();
        let rf = insert_index(keys, front, i);
        lemma_insert_index_length(keys, front, i);
        assert(!front.contains(i)) by {
            if front.contains(i) {
                let k = choose|k: int| 0 <= k < front.len() && front[k] == i;
                assert(order[k] == i);
            }
        }
        assert forall|p: int, q: int| 0 <= p < q < front.len() implies #[trigger] front[p]
            != #[trigger] front[q] by {
            assert(front[p] == order[p] && front[q] == order[q]);
        }
        lemma_insert_index_distinct(keys, front, i);
        assert forall|p: int, q: int| 0 <= p < q < order.len() + 1 implies #[trigger] r[p]
            != #[trigger] r[q] by {
            if q < rf.len() {
                assert(r[p] == rf[p] && r[q] == rf[q]);
            } else {
                assert(r[q] == order.last());
                assert(r[p] == rf[p]);
                lemma_insert_index_holds(keys, front, i, p);
                if rf[p] != i {
                    let k = choose|k: int| 0 <= k < front.len() && front[k] == rf[p];
                    assert(order[k] == rf[p]);
                    assert(order[order.len() - 1] == order.last());
                } else {
                    assert(order[order.len() - 1] == order.last());
                }
            }
        }
    } else {
        assert forall|p: int, q: int| 0 <= p < q < order.len() + 1 implies #[trigger] r[p]
            != #[trigger] r[q] by {
            assert(r[p] == order[p]);
            if q < order.len() {
                assert(r[q] == order[q]);
            }
        }
    }
}

/// The indices in the order of their names are an arrangement of the
/// indices, and each may follow the one before it.
pub proof fn lemma_collated(keys: Seq<Seq<char>>, n: int)
    requires
        0 <= n,
    ensures
        is_arrangement(collated(keys, n), n),
        in_order(keys, collated(keys, n)),
    decreases n,
{
    if n > 0 {
        lemma_collated(keys, n - 1);
        let order = collated(keys, n - 1);
        lemma_insert_index(keys, order, n - 1);
        lemma_insert_index_length(keys, order, n - 1);
        let r = insert_index(keys, order, n - 1);
        assert(!order.contains(n - 1));
        lemma_insert_index_distinct(keys, order, n - 1);
        assert forall|p: int| 0 <= p < r.len() implies 0 <= #[trigger] r[p] < n by {
            lemma_insert_index_holds(keys, order, n - 1, p);
            if r[p] != n - 1 {
                let k = choose|k: int| 0 <= k < order.len() && order[k] == r[p];
            }
        }
        assert forall|k: int| 0 <= k < n implies r.contains(k) by {
            lemma_insert_index_keeps(keys, order, n - 1, k);
        }
    }
}

/// Whether the natural order is an order among the names `keys`: of two
/// names one comes before the other exactly where the other comes after
/// it, and what is not after a name that is not after a third is not after
/// the third.
pub open spec fn orders(keys: Seq<Seq<char>>) -> bool {
    &&& forall|i: int, j: int|
        0 <= i < keys.len() && 0 <= j < keys.len() ==> (natural_order(
            #[trigger] keys[i],
            #[trigger] keys[j],
        ) == Order::Less <==> natural_order(keys[j], keys[i]) == Order::Greater)
    &&& forall|i: int, j: int, k: int|
        0 <= i < keys.len() && 0 <= j < keys.len() && 0 <= k < keys.len() && natural_order(
            #[trigger] keys[i],
            #[trigger] keys[j],
        ) != Order::Greater && natural_order(keys[j], #[trigger] keys[k]) != Order::Greater
            ==> natural_order(keys[i], keys[k]) != Order::Greater
}

/// Whether no name of the list `order` comes after a name that stands
/// behind it, for every pair of names.
pub open spec fn in_order_throughout(keys: Seq<Seq<char>>, order: Seq<int>) -> bool {
    forall|p: int, q: int|
        0 <= p < q < order.len() ==> natural_order(
            keys[#[trigger] order[p]],
            keys[#[trigger] order[q]],
        ) != Order::Greater
}

/// Where the natural order is an order among the names, a list in which
/// each name may follow the one before it is in order throughout.
pub proof fn lemma_in_order_throughout(keys: Seq<Seq<char>>, order: Seq<int>)
    requires
        orders(keys),
        in_order(keys, order),
        forall|p: int| 0 <= p < order.len() ==> 0 <= #[trigger] order[p] < keys.len(),
    ensures
        in_order_throughout(keys, order),
{
    assert forall|p: int, q: int| 0 <= p < q < order.len() implies natural_order(
        keys[#[trigger] order[p]],
        keys[#[trigger] order[q]],
    ) != Order::Greater by {
        lemma_not_after(keys, order, p, q);
    }
}

/// Under the same conditions, the name at `p` is not after the name at `q`
/// behind it.
proof fn lemma_not_after(keys: Seq<Seq<char>>, order: Seq<int>, p: int, q: int)
    requires
        orders(keys),
        in_order(keys, order),
        forall|k: int| 0 <= k < order.len() ==> 0 <= #[trigger] order[k] < keys.len(),
        0 <= p < q < order.len(),
    ensures
        natural_order(keys[order[p]], keys[order[q]]) != Order::Greater,
    decreases q - p,
{
    let a = order[q - 1];
    let b = order[q];
    assert(may_follow(keys[a], keys[b]));
    assert(natural_order(keys[a], keys[b]) == Order::Less <==> natural_order(keys[b], keys[a])
        == Order::Greater);
    assert(natural_order(keys[b], keys[a]) == Order::Less <==> natural_order(keys[a], keys[b])
        == Order::Greater);
    assert(natural_order(keys[a], keys[b]) != Order::Greater);
    if p < q - 1 {
        lemma_not_after(keys, order, p, q - 1);
        let c = order[p];
        assert(natural_order(keys[c], keys[a]) != Order::Greater);
    }
}

/// The views of the strings `keys`.
pub open spec fn texts(keys: Seq<String>) -> Seq<Seq<char>> {
    Seq::new(keys.len(), |i: int| keys[i]@)
}

/// The indices of `keys` as numbers without a bound.
pub open spec fn indices(order: Seq<usize>) -> Seq<int> {
    Seq::new(order.len(), |i: int| order[i] as int)
}

/// The indices of the names `keys` in the order of the names: each index
/// once, and each name may follow the one before it.
pub fn collate(keys: &Vec<String>) -> (r: Vec<usize>)
    ensures
        indices(r@) == collated(texts(keys@), keys@.len() as int),
        is_arrangement(indices(r@), keys@.len() as int),
        in_order(texts(keys@), indices(r@)),
{
    let ghost names = texts(keys@);
    let mut order: Vec<usize> = Vec::new();
    let mut i: usize = 0;
    assert(indices(order@) =~= collated(names, 0));
    while i < keys.len()
        invariant
            i <= keys@.len(),
            names == texts(keys@),
            indices(order@) == collated(names, i as int),
            order@.len() == i,
            forall|p: int| 0 <= p < order@.len() ==> 0 <= #[trigger] order@[p] < i,
        decreases keys@.len() - i,
    {
        let ghost before = indices(order@);
        let mut p: usize = order.len();
        while p > 0 && compare_names(keys[i].as_str(), keys[order[p - 1]].as_str())
            == Order::Less
            invariant
                p <= order@.len(),
                i < keys@.len(),
                names == texts(keys@),
                before == indices(order@),
                forall|q: int| 0 <= q < order@.len() ==> 0 <= #[trigger] order@[q] < i,
                forall|q: int|
                    p <= q < before.len() ==> goes_before(names[i as int], names[#[trigger] before[q]]),
            decreases p,
        {
            assert(before[p - 1] == order@[p - 1]);
            p -= 1;
        }
        proof {
            if p > 0 {
                assert(before[p - 1] == order@[p - 1]);
            }
            lemma_insert_index_at(names, before, i as int, p as int);
        }
        order.insert(p, i);
        assert(indices(order@) =~= before.insert(p as int, i as int));
        i += 1;
    }
    proof {
        lemma_collated(names, keys@.len() as int);
    }
    order
}

} // verus!
