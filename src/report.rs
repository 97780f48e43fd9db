//! The progress line printed after each training round.
//!
//! Every (dataset, metric, score) entry of the round appears once per distinct
//! (metric, dataset) pair, ordered by metric name and then by dataset name; when a pair
//! occurs twice, the later score is shown.
use crate::text::{chars_eq, chars_of, int_text, push_char, push_int};
use vstd::prelude::*;

verus! {

/// Lexicographic order on character sequences.
pub open spec fn seq_lt(a: Seq<char>, b: Seq<char>) -> bool
    decreases a.len(),
{
    if a.len() == 0 {
        b.len() > 0
    } else if b.len() == 0 {
        false
    } else if a[0] != b[0] {
        a[0] < b[0]
    } else {
        seq_lt(a.drop_first(), b.drop_first())
    }
}

/// Order on (metric, dataset) keys: by metric, then by dataset.
pub open spec fn key_lt(a: (Seq<char>, Seq<char>), b: (Seq<char>, Seq<char>)) -> bool {
    seq_lt(a.0, b.0) || (a.0 == b.0 && seq_lt(a.1, b.1))
}

pub proof fn lemma_seq_lt_irreflexive(a: Seq<char>)
    ensures
        !seq_lt(a, a),
    decreases a.len(),
{
    if a.len() > 0 {
        lemma_seq_lt_irreflexive(a.drop_first());
    }
}

pub proof fn lemma_seq_lt_transitive(a: Seq<char>, b: Seq<char>, c: Seq<char>)
    requires
        seq_lt(a, b),
        seq_lt(b, c),
    ensures
        seq_lt(a, c),
    decreases a.len(),
{
    if a.len() > 0 && b.len() > 0 && c.len() > 0 && a[0] == b[0] && b[0] == c[0] {
        lemma_seq_lt_transitive(a.drop_first(), b.drop_first(), c.drop_first());
    }
}

pub proof fn lemma_seq_lt_total(a: Seq<char>, b: Seq<char>)
    ensures
        a == b || seq_lt(a, b) || seq_lt(b, a),
    decreases a.len(),
{
    if a.len() > 0 && b.len() > 0 && a[0] == b[0] {
        lemma_seq_lt_total(a.drop_first(), b.drop_first());
        if a.drop_first() == b.drop_first() {
            assert(a =~= seq![a[0]] + a.drop_first());
            assert(b =~= seq![b[0]] + b.drop_first());
        }
    } else if a.len() == 0 && b.len() == 0 {
        assert(a =~= b);
    }
}

pub proof fn lemma_key_lt_facts()
    ensures
        forall|a: (Seq<char>, Seq<char>)| !#[trigger] key_lt(a, a),
        forall|a: (Seq<char>, Seq<char>), b: (Seq<char>, Seq<char>), c: (Seq<char>, Seq<char>)|
            #[trigger] key_lt(a, b) && #[trigger] key_lt(b, c) ==> key_lt(a, c),
        forall|a: (Seq<char>, Seq<char>), b: (Seq<char>, Seq<char>)|
            a == b || #[trigger] key_lt(a, b) || #[trigger] key_lt(b, a),
{
    assert forall|a: (Seq<char>, Seq<char>)| !#[trigger] key_lt(a, a) by {
        lemma_seq_lt_irreflexive(a.0);
        lemma_seq_lt_irreflexive(a.1);
    }
    assert forall|a: (Seq<char>, Seq<char>), b: (Seq<char>, Seq<char>), c: (Seq<char>, Seq<char>)|
        #[trigger] key_lt(a, b) && #[trigger] key_lt(b, c) implies key_lt(a, c) by {
        if seq_lt(a.0, b.0) && seq_lt(b.0, c.0) {
            lemma_seq_lt_transitive(a.0, b.0, c.0);
        } else if a.0 == b.0 && b.0 == c.0 {
            lemma_seq_lt_transitive(a.1, b.1, c.1);
        }
    }
    assert forall|a: (Seq<char>, Seq<char>), b: (Seq<char>, Seq<char>)|
        a == b || #[trigger] key_lt(a, b) || #[trigger] key_lt(b, a) by {
        lemma_seq_lt_total(a.0, b.0);
        lemma_seq_lt_total(a.1, b.1);
    }
}

/// Positions `order` into `keys` list each distinct key once, at its last occurrence,
/// in increasing key order.
pub open spec fn is_report_order(keys: Seq<(Seq<char>, Seq<char>)>, order: Seq<usize>) -> bool {
    &&& forall|a: int| 0 <= a < order.len() ==> #[trigger] order[a] < keys.len()
    &&& forall|a: int, b: int|
        0 <= a < b < order.len() ==> key_lt(keys[#[trigger] order[a] as int], keys[#[trigger] order[b] as int])
    &&& forall|a: int, n: int|
        #![trigger order[a], keys[n]]
        0 <= a < order.len() && order[a] < n < keys.len() ==> keys[n] != keys[order[a] as int]
    &&& forall|n: int| 0 <= n < keys.len() ==> key_listed(keys, order, #[trigger] keys[n])
}

/// Some position of `order` holds a key equal to `k`.
pub open spec fn key_listed(
    keys: Seq<(Seq<char>, Seq<char>)>,
    order: Seq<usize>,
    k: (Seq<char>, Seq<char>),
) -> bool {
    exists|a: int| 0 <= a < order.len() && keys[#[trigger] order[a] as int] == k
}

proof fn lemma_same_position(
    keys: Seq<(Seq<char>, Seq<char>)>,
    o1: Seq<usize>,
    o2: Seq<usize>,
    a: int,
)
    requires
        is_report_order(keys, o1),
        is_report_order(keys, o2),
        0 <= a < o1.len(),
        0 <= a < o2.len(),
        forall|i: int| 0 <= i < a ==> o1[i] == o2[i],
    ensures
        o1[a] == o2[a],
{
    lemma_key_lt_facts();
    let k1 = keys[o1[a] as int];
    let k2 = keys[o2[a] as int];
    assert(key_listed(keys, o2, keys[o1[a] as int]));
    let b = choose|b: int| 0 <= b < o2.len() && keys[#[trigger] o2[b] as int] == k1;
    if b < a {
        assert(key_lt(keys[o1[b] as int], keys[o1[a] as int]));
    }
    assert(key_listed(keys, o1, keys[o2[a] as int]));
    let c = choose|c: int| 0 <= c < o1.len() && keys[#[trigger] o1[c] as int] == k2;
    if c < a {
        assert(key_lt(keys[o2[c] as int], keys[o2[a] as int]));
    }
    if k1 != k2 {
        if b > a {
            assert(key_lt(k2, k1));
        }
        if c > a {
            assert(key_lt(k1, k2));
        }
    }
    if o1[a] < o2[a] {
        assert(keys[o2[a] as int] != keys[o1[a] as int]);
    } else if o2[a] < o1[a] {
        assert(keys[o1[a] as int] != keys[o2[a] as int]);
    }
}

proof fn lemma_no_extra_position(keys: Seq<(Seq<char>, Seq<char>)>, o1: Seq<usize>, o2: Seq<usize>)
    requires
        is_report_order(keys, o1),
        is_report_order(keys, o2),
        o1.len() <= o2.len(),
        forall|i: int| 0 <= i < o1.len() ==> o1[i] == o2[i],
    ensures
        o1.len() == o2.len(),
{
    lemma_key_lt_facts();
    if o1.len() < o2.len() {
        let n = o1.len() as int;
        assert(key_listed(keys, o1, keys[o2[n] as int]));
        let b = choose|b: int|
            0 <= b < o1.len() && keys[#[trigger] o1[b] as int] == keys[o2[n] as int];
        assert(key_lt(keys[o2[b] as int], keys[o2[n] as int]));
    }
}

proof fn lemma_prefix_equal(keys: Seq<(Seq<char>, Seq<char>)>, o1: Seq<usize>, o2: Seq<usize>, a: int)
    requires
        is_report_order(keys, o1),
        is_report_order(keys, o2),
        0 <= a <= o1.len(),
        a <= o2.len(),
    ensures
        forall|i: int| 0 <= i < a ==> o1[i] == o2[i],
    decreases a,
{
    if a > 0 {
        lemma_prefix_equal(keys, o1, o2, a - 1);
        lemma_same_position(keys, o1, o2, a - 1);
    }
}

/// There is one report order of a sequence of keys: the progress line is determined by
/// its entries.
pub proof fn lemma_report_order_unique(
    keys: Seq<(Seq<char>, Seq<char>)>,
    o1: Seq<usize>,
    o2: Seq<usize>,
)
    requires
        is_report_order(keys, o1),
        is_report_order(keys, o2),
    ensures
        o1 == o2,
{
    let n = if o1.len() < o2.len() {
        o1.len()
    } else {
        o2.len()
    };
    lemma_prefix_equal(keys, o1, o2, n as int);
    if o1.len() <= o2.len() {
        lemma_no_extra_position(keys, o1, o2);
    } else {
        lemma_no_extra_position(keys, o2, o1);
    }
    assert(o1 =~= o2);
}

/// Whether `a` comes before `b`.
fn chars_lt(a: &[char], b: &[char]) -> (r: bool)
    ensures
        r == seq_lt(a@, b@),
{
    let mut i: usize = 0;
    assert(a@.skip(0) =~= a@);
    assert(b@.skip(0) =~= b@);
    while i < a.len() && i < b.len() && a[i] == b[i]
        invariant
            i <= a@.len(),
            i <= b@.len(),
            seq_lt(a@, b@) == seq_lt(a@.skip(i as int), b@.skip(i as int)),
        decreases a.len() - i,
    {
        assert(a@.skip(i as int).drop_first() =~= a@.skip(i + 1 as int));
        assert(b@.skip(i as int).drop_first() =~= b@.skip(i + 1 as int));
        i = i + 1;
    }
    if i == a.len() {
        i < b.len()
    } else if i == b.len() {
        false
    } else {
        a[i] < b[i]
    }
}

fn key_less(a: &(Vec<char>, Vec<char>), b: &(Vec<char>, Vec<char>)) -> (r: bool)
    ensures
        r == key_lt((a.0@, a.1@), (b.0@, b.1@)),
{
    if chars_lt(a.0.as_slice(), b.0.as_slice()) {
        true
    } else {
        chars_eq(a.0.as_slice(), b.0.as_slice()) && chars_lt(a.1.as_slice(), b.1.as_slice())
    }
}

pub open spec fn keys_view(keys: Seq<(Vec<char>, Vec<char>)>) -> Seq<(Seq<char>, Seq<char>)> {
    keys.map_values(|k: (Vec<char>, Vec<char>)| (k.0@, k.1@))
}

/// The report order of `keys`.
fn order_keys(keys: &Vec<(Vec<char>, Vec<char>)>) -> (order: Vec<usize>)
    ensures
        is_report_order(keys_view(keys@), order@),
{
    let ghost kv = keys_view(keys@);
    let mut order: Vec<usize> = Vec::new();
    let mut n: usize = 0;
    proof {
        lemma_key_lt_facts();
    }
    while n < keys.len()
        invariant
            n <= keys@.len(),
            kv == keys_view(keys@),
            is_report_order(kv.take(n as int), order@),
        decreases keys.len() - n,
    {
        proof {
            lemma_key_lt_facts();
        }
        let ghost pre = kv.take(n as int);
        let ghost post = kv.take(n + 1 as int);
        assert(forall|i: int| 0 <= i < n ==> pre[i] == #[trigger] post[i] && post[i] == kv[i]);
        assert(post[n as int] == kv[n as int]);
        let key = &keys[n];
        assert(kv[n as int] == (key.0@, key.1@));
        let mut p: usize = 0;
        while p < order.len() && key_less(&keys[order[p]], key)
            invariant
                n < keys@.len(),
                kv == keys_view(keys@),
                *key == keys@[n as int],
                p <= order@.len(),
                is_report_order(kv.take(n as int), order@),
                forall|a: int| 0 <= a < p ==> key_lt(kv[#[trigger] order@[a] as int], kv[n as int]),
            decreases order.len() - p,
        {
            p = p + 1;
        }
        let ghost old_order = order@;
        if p < order.len() && chars_eq(keys[order[p]].0.as_slice(), key.0.as_slice()) && chars_eq(
            keys[order[p]].1.as_slice(),
            key.1.as_slice(),
        ) {
            order.set(p, n);
            proof {
                assert(kv[old_order[p as int] as int] == kv[n as int]);
                assert forall|a: int, b: int| 0 <= a < b < order@.len() implies key_lt(
                    post[#[trigger] order@[a] as int],
                    post[#[trigger] order@[b] as int],
                ) by {
                    assert(key_lt(kv[old_order[a] as int], kv[old_order[b] as int]));
                }
                assert forall|a: int, m: int|
                    #![trigger order@[a], post[m]]
                    0 <= a < order@.len() && order@[a] < m < post.len() implies post[m]
                    != post[order@[a] as int] by {
                    if a != p && m == n {
                        if a < p {
                            assert(key_lt(kv[old_order[a] as int], kv[old_order[p as int] as int]));
                        } else {
                            assert(key_lt(kv[old_order[p as int] as int], kv[old_order[a] as int]));
                        }
                    }
                }
                assert forall|m: int| 0 <= m < post.len() implies key_listed(
                    post,
                    order@,
                    #[trigger] post[m],
                ) by {
                    if m < n {
                        assert(key_listed(pre, old_order, pre[m]));
                        let a = choose|a: int|
                            0 <= a < old_order.len() && pre[#[trigger] old_order[a] as int] == pre[m];
                        if a == p {
                            assert(post[order@[p as int] as int] == post[m]);
                        } else {
                            assert(post[order@[a] as int] == post[m]);
                        }
                    } else {
                        assert(post[order@[p as int] as int] == post[m]);
                    }
                }
            }
        } else {
            proof {
                if p < old_order.len() {
                    assert(!key_lt(kv[old_order[p as int] as int], kv[n as int]));
                    assert(kv[old_order[p as int] as int] != kv[n as int]);
                    assert(key_lt(kv[n as int], kv[old_order[p as int] as int]));
                }
            }
            order.insert(p, n);
            proof {
                assert forall|a: int| 0 <= a < order@.len() implies #[trigger] order@[a] < post.len() by {
                    if a < p {
                        assert(order@[a] == old_order[a]);
                    } else if a > p {
                        assert(order@[a] == old_order[a - 1]);
                    }
                }
                assert forall|a: int, b: int| 0 <= a < b < order@.len() implies key_lt(
                    post[#[trigger] order@[a] as int],
                    post[#[trigger] order@[b] as int],
                ) by {
                    if b < p {
                        assert(key_lt(kv[old_order[a] as int], kv[old_order[b] as int]));
                    } else if b == p {
                        assert(order@[a] == old_order[a]);
                    } else if a < p {
                        assert(order@[b] == old_order[b - 1]);
                        assert(key_lt(kv[old_order[a] as int], kv[old_order[b - 1] as int]));
                    } else if a == p {
                        assert(order@[b] == old_order[b - 1]);
                        if b - 1 > p {
                            assert(key_lt(kv[old_order[p as int] as int], kv[old_order[b - 1] as int]));
                        }
                    } else {
                        assert(order@[a] == old_order[a - 1]);
                        assert(order@[b] == old_order[b - 1]);
                        assert(key_lt(kv[old_order[a - 1] as int], kv[old_order[b - 1] as int]));
                    }
                }
                assert forall|a: int, m: int|
                    #![trigger order@[a], post[m]]
                    0 <= a < order@.len() && order@[a] < m < post.len() implies post[m]
                    != post[order@[a] as int] by {
                    if a != p && m == n {
                        let o = if a < p {
                            old_order[a]
                        } else {
                            old_order[a - 1]
                        };
                        assert(order@[a] == o);
                        if a < p {
                            assert(key_lt(kv[o as int], kv[n as int]));
                        } else {
                            if a - 1 > p {
                                assert(key_lt(kv[old_order[p as int] as int], kv[o as int]));
                            }
                            assert(key_lt(kv[n as int], kv[o as int]));
                        }
                    } else if a != p {
                        let o = if a < p {
                            old_order[a]
                        } else {
                            old_order[a - 1]
                        };
                        assert(order@[a] == o);
                        assert(pre[m] != pre[o as int]);
                    }
                }
                assert forall|m: int| 0 <= m < post.len() implies key_listed(
                    post,
                    order@,
                    #[trigger] post[m],
                ) by {
                    if m < n {
                        assert(key_listed(pre, old_order, pre[m]));
                        let a = choose|a: int|
                            0 <= a < old_order.len() && pre[#[trigger] old_order[a] as int] == pre[m];
                        if a < p {
                            assert(post[order@[a] as int] == post[m]);
                        } else {
                            assert(order@[a + 1] == old_order[a]);
                            assert(post[order@[a + 1] as int] == post[m]);
                        }
                    } else {
                        assert(post[order@[p as int] as int] == post[m]);
                    }
                }
            }
        }
        n = n + 1;
    }
    assert(kv.take(n as int) =~= kv);
    order
}

/// Keys of report entries `(dataset, metric, score)`: `(metric, dataset)`.
pub open spec fn report_keys(entries: Seq<(String, String, String)>) -> Seq<(Seq<char>, Seq<char>)> {
    entries.map_values(|e: (String, String, String)| (e.1@, e.0@))
}

/// `\t<dataset>-<metric>:<score>` for each listed entry, in order.
pub open spec fn report_text(entries: Seq<(String, String, String)>, order: Seq<usize>) -> Seq<char>
    decreases order.len(),
{
    if order.len() == 0 {
        Seq::empty()
    } else {
        let e = entries[order.last() as int];
        report_text(entries, order.drop_last()) + seq!['\t'] + e.0@ + seq!['-'] + e.1@ + seq![':']
            + e.2@
    }
}

/// The progress line of a round.
pub open spec fn progress_text(
    iteration: int,
    entries: Seq<(String, String, String)>,
    order: Seq<usize>,
) -> Seq<char> {
    seq!['['] + int_text(iteration) + seq![']'] + report_text(entries, order)
}

/// The progress line of round `iteration`: `[<iteration>]` followed by
/// `\t<dataset>-<metric>:<score>` for each distinct (metric, dataset) pair of `entries`,
/// ordered by metric name and then dataset name, with the later score of a repeated pair.
pub fn progress_line(iteration: i32, entries: &Vec<(String, String, String)>) -> (r: String)
    ensures
        exists|order: Seq<usize>|
            is_report_order(report_keys(entries@), order) && r@ == progress_text(
                iteration as int,
                entries@,
                order,
            ),
{
    let mut keys: Vec<(Vec<char>, Vec<char>)> = Vec::new();
    let mut i: usize = 0;
    while i < entries.len()
        invariant
            i <= entries@.len(),
            keys_view(keys@) == report_keys(entries@).take(i as int),
        decreases entries.len() - i,
    {
        let ghost prev = keys@;
        let k = (chars_of(entries[i].1.as_str()), chars_of(entries[i].0.as_str()));
        keys.push(k);
        assert(keys@ =~= prev.push(k));
        assert(keys_view(keys@) =~= keys_view(prev).push((entries@[i as int].1@, entries@[i as int].0@)));
        i = i + 1;
        assert(keys_view(keys@) =~= report_keys(entries@).take(i as int));
    }
    assert(keys_view(keys@) =~= report_keys(entries@));
    let order = order_keys(&keys);
    let mut line = String::new();
    push_char(&mut line, '[');
    push_int(&mut line, iteration as i64);
    push_char(&mut line, ']');
    let mut a: usize = 0;
    assert(order@.take(0) =~= Seq::<usize>::empty());
    while a < order.len()
        invariant
            a <= order@.len(),
            is_report_order(report_keys(entries@), order@),
            report_keys(entries@).len() == entries@.len(),
            line@ == progress_text(iteration as int, entries@, order@.take(a as int)),
        decreases order.len() - a,
    {
        let e = &entries[order[a]];
        push_char(&mut line, '\t');
        line.append(e.0.as_str());
        push_char(&mut line, '-');
        line.append(e.1.as_str());
        push_char(&mut line, ':');
        line.append(e.2.as_str());
        assert(order@.take(a + 1 as int).drop_last() =~= order@.take(a as int));
        a = a + 1;
        assert(line@ =~= progress_text(iteration as int, entries@, order@.take(a as int)));
    }
    assert(order@.take(a as int) =~= order@);
    line
}

} // verus!
