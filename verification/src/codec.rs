//! The schema-driven codec engine: building canonically sorted maps on
//! encode, and the strict sorted-merge destructure on decode.  Generated or
//! hand-written bindings for concrete types drive these functions.
use vstd::prelude::*;

use crate::values::{
    lemma_cmp_antisym, lemma_cmp_refl, lemma_cmp_trans, lemma_cmp_trans_strict, lemma_cmp_zero,
    lemma_tree_pairs_of, lemma_trees_of, pairs_sorted, tree_cmp, tree_of, tree_pairs_of, trees_of,
    value_cmp, SimpleValue, Tree, Value,
};
use crate::DecodeError;

verus! {


/// Insert an entry into a key-sorted run: it lands before the first entry
/// whose key is strictly greater.
pub open spec fn insert_pair(p: (Tree, Tree), s: Seq<(Tree, Tree)>) -> Seq<(Tree, Tree)>
    decreases s,
{
    if s.len() == 0 {
        seq![p]
    } else if tree_cmp(p.0, s[0].0) < 0 {
        seq![p] + s
    } else {
        seq![s[0]] + insert_pair(p, s.drop_first())
    }
}

pub open spec fn sort_acc(acc: Seq<(Tree, Tree)>, s: Seq<(Tree, Tree)>) -> Seq<(Tree, Tree)>
    decreases s,
{
    if s.len() == 0 {
        acc
    } else {
        sort_acc(insert_pair(s[0], acc), s.drop_first())
    }
}

/// The entries of a map sorted into canonical key order, by insertion from
/// the front; entries with equal keys keep no particular order.
pub open spec fn sort_pairs(s: Seq<(Tree, Tree)>) -> Seq<(Tree, Tree)> {
    sort_acc(Seq::empty(), s)
}

/// Keys ascending, allowing ties on neighbours.
pub open spec fn pairs_weak_sorted(s: Seq<(Tree, Tree)>) -> bool {
    forall|i: int| 0 <= i && i + 1 < s.len() ==> tree_cmp(#[trigger] s[i].0, s[i + 1].0) <= 0
}

proof fn lemma_insert_pair_sorted(p: (Tree, Tree), s: Seq<(Tree, Tree)>)
    requires
        pairs_weak_sorted(s),
    ensures
        pairs_weak_sorted(insert_pair(p, s)),
        insert_pair(p, s).len() == s.len() + 1,
        forall|i: int| 0 <= i < insert_pair(p, s).len() ==> (#[trigger] insert_pair(p, s)[i] == p
            || exists|j: int| 0 <= j < s.len() && insert_pair(p, s)[i] == s[j]),
    decreases s,
{
    let r = insert_pair(p, s);
    if s.len() == 0 {
        assert(r == seq![p]);
        assert(r[0] == p);
    } else if tree_cmp(p.0, s[0].0) < 0 {
        assert forall|i: int| 0 <= i && i + 1 < r.len() implies tree_cmp(
            #[trigger] r[i].0,
            r[i + 1].0,
        ) <= 0 by {
            if i > 0 {
                assert(r[i] == s[i - 1] && r[i + 1] == s[i]);
            }
        }
        assert forall|i: int|
            0 <= i < r.len() implies (#[trigger] r[i] == p || exists|j: int|
            0 <= j < s.len() && r[i] == s[j]) by {
            if i > 0 {
                assert(r[i] == s[i - 1]);
            }
        }
    } else {
        assert(pairs_weak_sorted(s.drop_first())) by {
            assert(forall|i: int|
                0 <= i && i + 1 < s.drop_first().len() ==> #[trigger] s.drop_first()[i] == s[i + 1]
                    && s.drop_first()[i + 1] == s[i + 2]);
        }
        lemma_insert_pair_sorted(p, s.drop_first());
        let rr = insert_pair(p, s.drop_first());
        assert(r == seq![s[0]] + rr);
        lemma_cmp_antisym(p.0, s[0].0);
        assert forall|i: int| 0 <= i && i + 1 < r.len() implies tree_cmp(
            #[trigger] r[i].0,
            r[i + 1].0,
        ) <= 0 by {
            if i == 0 {
                // the next entry is either p (whose key is >= s[0].0) or s[1]
                assert(r[1] == rr[0]);
                if rr[0] == p {
                } else {
                    let j = choose|j: int| 0 <= j < s.drop_first().len() && rr[0] == s.drop_first(
                    )[j];
                    if rr.len() > 0 {
                        assert(rr[0] == p || exists|j: int|
                            0 <= j < s.drop_first().len() && rr[0] == s.drop_first()[j]);
                    }
                    // rr[0] is either p or the old head s[1]
                    if s.drop_first().len() > 0 && tree_cmp(p.0, s.drop_first()[0].0) < 0 {
                        assert(rr[0] == p);
                    } else if s.drop_first().len() > 0 {
                        assert(rr[0] == s.drop_first()[0]);
                        assert(s.drop_first()[0] == s[1]);
                    } else {
                        assert(rr == seq![p]);
                    }
                }
            } else {
                assert(r[i] == rr[i - 1] && r[i + 1] == rr[i]);
            }
        }
        assert forall|i: int|
            0 <= i < r.len() implies (#[trigger] r[i] == p || exists|j: int|
            0 <= j < s.len() && r[i] == s[j]) by {
            if i == 0 {
                assert(r[0] == s[0]);
            } else {
                assert(r[i] == rr[i - 1]);
                if rr[i - 1] == p {
                } else {
                    let j = choose|j: int|
                        0 <= j < s.drop_first().len() && rr[i - 1] == s.drop_first()[j];
                    assert(s.drop_first()[j] == s[j + 1]);
                }
            }
        }
    }
}

proof fn lemma_sort_acc_sorted(acc: Seq<(Tree, Tree)>, s: Seq<(Tree, Tree)>)
    requires
        pairs_weak_sorted(acc),
    ensures
        pairs_weak_sorted(sort_acc(acc, s)),
    decreases s,
{
    if s.len() > 0 {
        lemma_insert_pair_sorted(s[0], acc);
        lemma_sort_acc_sorted(insert_pair(s[0], acc), s.drop_first());
    }
}

/// Every map the engine emits is sorted ascending by key.
pub proof fn lemma_sort_pairs_sorted(s: Seq<(Tree, Tree)>)
    ensures
        pairs_weak_sorted(sort_pairs(s)),
{
    lemma_sort_acc_sorted(Seq::empty(), s);
}

/// Pairwise distinct keys.
pub open spec fn keys_distinct(s: Seq<(Tree, Tree)>) -> bool {
    forall|i: int, j: int|
        0 <= i < j < s.len() ==> tree_cmp(#[trigger] s[i].0, #[trigger] s[j].0) != 0
}

proof fn lemma_insert_pair_head(p: (Tree, Tree), s: Seq<(Tree, Tree)>)
    ensures
        insert_pair(p, s).len() > 0,
        insert_pair(p, s)[0] == p || (s.len() > 0 && insert_pair(p, s)[0] == s[0]),
{
}

proof fn lemma_insert_pair_strict(p: (Tree, Tree), s: Seq<(Tree, Tree)>)
    requires
        pairs_sorted(s),
        forall|i: int| 0 <= i < s.len() ==> tree_cmp(p.0, #[trigger] s[i].0) != 0,
    ensures
        pairs_sorted(insert_pair(p, s)),
    decreases s,
{
    let r = insert_pair(p, s);
    assert(pairs_weak_sorted(s));
    lemma_insert_pair_sorted(p, s);
    if s.len() == 0 {
    } else if tree_cmp(p.0, s[0].0) < 0 {
        assert forall|i: int| 0 <= i && i + 1 < r.len() implies tree_cmp(
            #[trigger] r[i].0,
            r[i + 1].0,
        ) < 0 by {
            if i > 0 {
                assert(r[i] == s[i - 1] && r[i + 1] == s[i]);
            }
        }
    } else {
        let st = s.drop_first();
        assert(forall|i: int| 0 <= i && i + 1 < st.len() ==> #[trigger] st[i] == s[i + 1] && st[i
            + 1] == s[i + 2]);
        assert(forall|i: int| 0 <= i < st.len() ==> #[trigger] st[i] == s[i + 1]);
        lemma_insert_pair_strict(p, st);
        let rr = insert_pair(p, st);
        assert(r == seq![s[0]] + rr);
        lemma_cmp_antisym(p.0, s[0].0);
        lemma_insert_pair_head(p, st);
        assert forall|i: int| 0 <= i && i + 1 < r.len() implies tree_cmp(
            #[trigger] r[i].0,
            r[i + 1].0,
        ) < 0 by {
            if i == 0 {
                assert(r[1] == rr[0]);
                if rr[0] == p {
                } else {
                    assert(st.len() > 0 && rr[0] == st[0]);
                    assert(st[0] == s[1]);
                }
            } else {
                assert(r[i] == rr[i - 1] && r[i + 1] == rr[i]);
            }
        }
    }
}

proof fn lemma_sort_acc_strict(acc: Seq<(Tree, Tree)>, s: Seq<(Tree, Tree)>)
    requires
        pairs_sorted(acc),
        keys_distinct(s),
        forall|i: int, a: int|
            0 <= i < s.len() && 0 <= a < acc.len() ==> tree_cmp(
                #[trigger] s[i].0,
                #[trigger] acc[a].0,
            ) != 0,
    ensures
        pairs_sorted(sort_acc(acc, s)),
    decreases s,
{
    if s.len() > 0 {
        assert(pairs_weak_sorted(acc));
        lemma_insert_pair_sorted(s[0], acc);
        lemma_insert_pair_strict(s[0], acc);
        let acc2 = insert_pair(s[0], acc);
        let st = s.drop_first();
        assert(forall|i: int| 0 <= i < st.len() ==> #[trigger] st[i] == s[i + 1]);
        assert(keys_distinct(st)) by {
            assert(forall|i: int, j: int|
                0 <= i < j < st.len() ==> st[i] == s[i + 1] && st[j] == s[j + 1]);
        }
        assert forall|i: int, a: int|
            0 <= i < st.len() && 0 <= a < acc2.len() implies tree_cmp(
            #[trigger] st[i].0,
            #[trigger] acc2[a].0,
        ) != 0 by {
            if acc2[a] == s[0] {
                assert(st[i] == s[i + 1]);
                assert(tree_cmp(s[0].0, s[i + 1].0) != 0);
                lemma_cmp_antisym(s[i + 1].0, s[0].0);
            } else {
                let j = choose|j: int| 0 <= j < acc.len() && acc2[a] == acc[j];
                assert(tree_cmp(st[i].0, acc[j].0) != 0);
            }
        }
        lemma_sort_acc_strict(acc2, st);
    }
}

/// Every map the engine emits from entries with pairwise distinct keys is
/// strictly sorted ascending and so contains no duplicate keys.
pub proof fn lemma_sort_pairs_strict(s: Seq<(Tree, Tree)>)
    requires
        keys_distinct(s),
    ensures
        pairs_sorted(sort_pairs(s)),
{
    lemma_sort_acc_strict(Seq::empty(), s);
}

proof fn lemma_insert_pair_multiset(p: (Tree, Tree), s: Seq<(Tree, Tree)>)
    ensures
        insert_pair(p, s).to_multiset() == s.to_multiset().insert(p),
    decreases s,
{
    broadcast use vstd::seq_lib::group_to_multiset_ensures;
    broadcast use vstd::multiset::group_multiset_axioms;

    if s.len() == 0 {
        assert(seq![p] =~= Seq::<(Tree, Tree)>::empty().push(p));
        assert(s =~= Seq::<(Tree, Tree)>::empty());
    } else if tree_cmp(p.0, s[0].0) < 0 {
        vstd::seq_lib::lemma_multiset_commutative(seq![p], s);
        assert(seq![p] =~= Seq::<(Tree, Tree)>::empty().push(p));
        assert((seq![p] + s).to_multiset() =~= s.to_multiset().insert(p));
    } else {
        lemma_insert_pair_multiset(p, s.drop_first());
        vstd::seq_lib::lemma_multiset_commutative(seq![s[0]], insert_pair(p, s.drop_first()));
        vstd::seq_lib::lemma_multiset_commutative(seq![s[0]], s.drop_first());
        assert(seq![s[0]] =~= Seq::<(Tree, Tree)>::empty().push(s[0]));
        assert(seq![s[0]] + s.drop_first() =~= s);
        assert((seq![s[0]] + insert_pair(p, s.drop_first())).to_multiset() =~= s.to_multiset(
        ).insert(p));
    }
}

proof fn lemma_sort_acc_multiset(acc: Seq<(Tree, Tree)>, s: Seq<(Tree, Tree)>)
    ensures
        sort_acc(acc, s).to_multiset() == acc.to_multiset().add(s.to_multiset()),
    decreases s,
{
    broadcast use vstd::seq_lib::group_to_multiset_ensures;
    broadcast use vstd::multiset::group_multiset_axioms;

    if s.len() == 0 {
        assert(acc.to_multiset().add(s.to_multiset()) =~= acc.to_multiset());
    } else {
        lemma_insert_pair_multiset(s[0], acc);
        lemma_sort_acc_multiset(insert_pair(s[0], acc), s.drop_first());
        assert(seq![s[0]] =~= Seq::<(Tree, Tree)>::empty().push(s[0]));
        assert(seq![s[0]] + s.drop_first() =~= s);
        vstd::seq_lib::lemma_multiset_commutative(seq![s[0]], s.drop_first());
        assert(acc.to_multiset().insert(s[0]).add(s.drop_first().to_multiset())
            =~= acc.to_multiset().add(s.to_multiset()));
    }
}

/// Sorting permutes the entries: it drops nothing and adds nothing, so a
/// key stands in the emitted map exactly as often as in the given entries.
pub proof fn lemma_sort_pairs_permutation(s: Seq<(Tree, Tree)>)
    ensures
        sort_pairs(s).to_multiset() == s.to_multiset(),
        sort_pairs(s).len() == s.len(),
{
    broadcast use vstd::seq_lib::group_to_multiset_ensures;
    broadcast use vstd::multiset::group_multiset_axioms;

    lemma_sort_acc_multiset(Seq::empty(), s);
    assert(Seq::<(Tree, Tree)>::empty().to_multiset().add(s.to_multiset()) =~= s.to_multiset());
    assert(sort_pairs(s).to_multiset() =~= s.to_multiset());
    assert(sort_pairs(s).len() == sort_pairs(s).to_multiset().len());
    assert(s.len() == s.to_multiset().len());
}

/// A key stands in the emitted entries exactly when some given entry
/// carries it: emission neither invents nor loses fields, so an omitted
/// optional field is absent from the map and an emitted one is present.
pub proof fn lemma_sort_pairs_key_presence(s: Seq<(Tree, Tree)>, k: Tree)
    ensures
        (exists|i: int| 0 <= i < sort_pairs(s).len() && (#[trigger] sort_pairs(s)[i]).0 == k)
            <==> (exists|i: int| 0 <= i < s.len() && (#[trigger] s[i]).0 == k),
{
    broadcast use vstd::seq_lib::group_to_multiset_ensures;
    broadcast use vstd::multiset::group_multiset_axioms;

    lemma_sort_pairs_permutation(s);
    let r = sort_pairs(s);
    if exists|i: int| 0 <= i < r.len() && (#[trigger] r[i]).0 == k {
        let i = choose|i: int| 0 <= i < r.len() && (#[trigger] r[i]).0 == k;
        assert(r.contains(r[i]));
        assert(s.to_multiset().count(r[i]) > 0);
        assert(s.contains(r[i]));
        let j = choose|j: int| 0 <= j < s.len() && s[j] == r[i];
        assert(s[j].0 == k);
    }
    if exists|i: int| 0 <= i < s.len() && (#[trigger] s[i]).0 == k {
        let i = choose|i: int| 0 <= i < s.len() && (#[trigger] s[i]).0 == k;
        assert(s.contains(s[i]));
        assert(r.to_multiset().count(s[i]) > 0);
        assert(r.contains(s[i]));
        let j = choose|j: int| 0 <= j < r.len() && r[j] == s[i];
        assert(r[j].0 == k);
    }
}

/// In a strictly sorted run of entries, every earlier key is strictly
/// below every later one.
proof fn lemma_pairs_sorted_pairwise(s: Seq<(Tree, Tree)>, i: int, j: int)
    requires
        pairs_sorted(s),
        0 <= i < j < s.len(),
    ensures
        tree_cmp(s[i].0, s[j].0) < 0,
    decreases j - i,
{
    if i + 1 < j {
        lemma_pairs_sorted_pairwise(s, i + 1, j);
        lemma_cmp_trans_strict(s[i].0, s[i + 1].0, s[j].0);
    }
}

/// An entry whose key is at or above every key in the run lands at its end.
proof fn lemma_insert_pair_append(p: (Tree, Tree), s: Seq<(Tree, Tree)>)
    requires
        forall|j: int| 0 <= j < s.len() ==> tree_cmp(p.0, (#[trigger] s[j]).0) >= 0,
    ensures
        insert_pair(p, s) == s.push(p),
    decreases s,
{
    if s.len() == 0 {
        assert(insert_pair(p, s) =~= s.push(p));
    } else {
        assert(forall|j: int|
            0 <= j < s.drop_first().len() ==> #[trigger] s.drop_first()[j] == s[j + 1]);
        lemma_insert_pair_append(p, s.drop_first());
        assert(seq![s[0]] + s.drop_first().push(p) =~= s.push(p));
    }
}

proof fn lemma_sort_acc_identity(acc: Seq<(Tree, Tree)>, s: Seq<(Tree, Tree)>)
    requires
        pairs_sorted(acc + s),
    ensures
        sort_acc(acc, s) == acc + s,
    decreases s,
{
    if s.len() == 0 {
        assert(acc + s =~= acc);
    } else {
        assert forall|j: int| 0 <= j < acc.len() implies tree_cmp(
            s[0].0,
            (#[trigger] acc[j]).0,
        ) >= 0 by {
            assert((acc + s)[j] == acc[j]);
            assert((acc + s)[acc.len() as int] == s[0]);
            lemma_pairs_sorted_pairwise(acc + s, j, acc.len() as int);
            lemma_cmp_antisym(acc[j].0, s[0].0);
        }
        lemma_insert_pair_append(s[0], acc);
        assert(acc.push(s[0]) + s.drop_first() =~= acc + s);
        lemma_sort_acc_identity(acc.push(s[0]), s.drop_first());
    }
}

/// Sorting leaves an already canonically sorted run unchanged.
pub proof fn lemma_sort_pairs_identity(s: Seq<(Tree, Tree)>)
    requires
        pairs_sorted(s),
    ensures
        sort_pairs(s) == s,
{
    assert(Seq::<(Tree, Tree)>::empty() + s =~= s);
    lemma_sort_acc_identity(Seq::empty(), s);
}

/// Where an entry must land: before the first strictly greater key.
proof fn lemma_insert_pair_at(p: (Tree, Tree), s: Seq<(Tree, Tree)>, i: int)
    requires
        0 <= i <= s.len(),
        forall|j: int| 0 <= j < i ==> tree_cmp(p.0, #[trigger] s[j].0) >= 0,
        i < s.len() ==> tree_cmp(p.0, s[i].0) < 0,
    ensures
        insert_pair(p, s) == s.take(i) + seq![p] + s.skip(i),
    decreases i,
{
    if i == 0 {
        if s.len() == 0 {
            assert(insert_pair(p, s) =~= s.take(0) + seq![p] + s.skip(0));
        } else {
            assert(s.take(0) + seq![p] + s.skip(0) =~= seq![p] + s);
        }
    } else {
        assert(forall|j: int|
            0 <= j < i - 1 ==> #[trigger] s.drop_first()[j] == s[j + 1] && tree_cmp(
                p.0,
                s[j + 1].0,
            ) >= 0);
        assert(i - 1 < s.drop_first().len() ==> s.drop_first()[i - 1] == s[i]);
        lemma_insert_pair_at(p, s.drop_first(), i - 1);
        assert(insert_pair(p, s) == seq![s[0]] + insert_pair(p, s.drop_first()));
        assert(seq![s[0]] + (s.drop_first().take(i - 1) + seq![p] + s.drop_first().skip(i - 1))
            =~= s.take(i) + seq![p] + s.skip(i));
    }
}

/// Insert an entry into a vector of map entries at its canonical position.
#[verifier::loop_isolation(false)]
fn insert_entry(out: &mut Vec<(Value, Value)>, p: (Value, Value))
    ensures
        tree_pairs_of(final(out)@) == insert_pair(
            (tree_of(p.0), tree_of(p.1)),
            tree_pairs_of(old(out)@),
        ),
{
    proof {
        lemma_tree_pairs_of(out@);
    }
    let ghost s = tree_pairs_of(out@);
    let ghost pt = (tree_of(p.0), tree_of(p.1));
    let mut i: usize = 0;
    while i < out.len()
        invariant
            i <= out@.len(),
            forall|j: int| 0 <= j < i ==> tree_cmp(pt.0, #[trigger] s[j].0) >= 0,
        decreases out@.len() - i,
    {
        let c = value_cmp(&p.0, &out[i].0);
        if c < 0 {
            break ;
        }
        i += 1;
    }
    proof {
        lemma_insert_pair_at(pt, s, i as int);
    }
    out.insert(i, p);
    proof {
        lemma_tree_pairs_of(out@);
        assert(tree_pairs_of(out@) =~= s.take(i as int) + seq![pt] + s.skip(i as int));
    }
}

/// Sort the entries of a map into canonical key order.
#[verifier::loop_isolation(false)]
pub fn sort_map_entries(entries: Vec<(Value, Value)>) -> (r: Vec<(Value, Value)>)
    ensures
        tree_pairs_of(r@) == sort_pairs(tree_pairs_of(entries@)),
{
    proof {
        lemma_tree_pairs_of(entries@);
    }
    let ghost all = tree_pairs_of(entries@);
    let mut rest = entries;
    let mut out: Vec<(Value, Value)> = Vec::new();
    proof {
        assert(tree_pairs_of(out@) =~= Seq::<(Tree, Tree)>::empty());
    }
    while rest.len() > 0
        invariant
            sort_acc(tree_pairs_of(out@), tree_pairs_of(rest@)) == sort_pairs(all),
        decreases rest@.len(),
    {
        proof {
            lemma_tree_pairs_of(rest@);
        }
        let ghost rs = tree_pairs_of(rest@);
        let p = rest.remove(0);
        proof {
            lemma_tree_pairs_of(rest@);
            assert(tree_pairs_of(rest@) =~= rs.drop_first());
            assert(rs[0] == (tree_of(p.0), tree_of(p.1)));
        }
        insert_entry(&mut out, p);
    }
    proof {
        lemma_tree_pairs_of(rest@);
        assert(tree_pairs_of(rest@).len() == 0);
    }
    out
}

/// Build the map value for a struct: the given `(key, value)` entries are
/// sorted by key at emission time.
pub fn build_struct_map(entries: Vec<(Value, Value)>) -> (r: Value)
    ensures
        r.dv() == Tree::Mapping(sort_pairs(tree_pairs_of(entries@))),
{
    Value::Mapping(sort_map_entries(entries))
}

/// Build the array value for a positional carrier (a tuple or newtype
/// struct, or `as_array`): always an array of the encoded fields in source
/// order.
pub fn build_struct_array(fields: Vec<Value>) -> (r: Value)
    ensures
        r.dv() == Tree::Array(trees_of(fields@)),
        r.dv() is Array,
{
    Value::Array(fields)
}

/// The `optional` treatment of a field without a user predicate: the entry
/// is omitted exactly when the encoded field value is null.
pub fn optional_entry(key: Value, encoded: Value) -> (r: Option<(Value, Value)>)
    ensures
        match r {
            Option::None => encoded.dv() == Tree::null(),
            Option::Some(p) => encoded.dv() != Tree::null() && p.0.dv() == key.dv() && p.1.dv()
                == encoded.dv(),
        },
{
    match encoded {
        Value::Simple(SimpleValue::NullValue) => None,
        v => Some((key, v)),
    }
}

/// Wrap an externally tagged enum variant: a map with the variant key as its
/// sole entry.
pub fn wrap_enum_value(key: Value, inner: Value) -> (r: Value)
    ensures
        r.dv() == Tree::Mapping(seq![(key.dv(), inner.dv())]),
{
    let mut m: Vec<(Value, Value)> = Vec::new();
    let ghost kt = key.dv();
    let ghost it = inner.dv();
    m.push((key, inner));
    proof {
        lemma_tree_pairs_of(m@);
        assert(tree_pairs_of(m@) =~= seq![(kt, it)]);
    }
    Value::Mapping(m)
}

/// Fold the tag of an internally tagged enum into the variant's map: one
/// more entry mapping the tag key to the variant key, re-sorted.
pub fn fold_tag_into_map(tag_key: Value, variant_key: Value, items: Vec<(Value, Value)>) -> (r:
    Value)
    ensures
        r.dv() == Tree::Mapping(
            sort_pairs(tree_pairs_of(items@).push((tag_key.dv(), variant_key.dv()))),
        ),
{
    proof {
        lemma_tree_pairs_of(items@);
    }
    let ghost before = tree_pairs_of(items@);
    let ghost tk = tag_key.dv();
    let ghost vk = variant_key.dv();
    let mut items = items;
    items.push((tag_key, variant_key));
    proof {
        lemma_tree_pairs_of(items@);
        assert(tree_pairs_of(items@) =~= before.push((tk, vk)));
    }
    build_struct_map(items)
}

/// Split a value for externally tagged enum decoding: a map of exactly one
/// entry splits into its key and inner value; anything else is itself the
/// discriminator.
pub fn split_enum_value(value: Value) -> (r: (Value, Option<Value>))
    ensures
        ({
            let t = value.dv();
            match t {
                Tree::Mapping(s) => if s.len() == 1 {
                    r.0.dv() == s[0].0 && (r.1 matches Option::Some(inner) && inner.dv() == s[0].1)
                } else {
                    r.0.dv() == t && r.1 is None
                },
                _ => r.0.dv() == t && r.1 is None,
            }
        }),
{
    match value {
        Value::Mapping(m) => {
            proof {
                lemma_tree_pairs_of(m@);
            }
            if m.len() == 1 {
                let mut m = m;
                let e = m.remove(0);
                (e.0, Some(e.1))
            } else {
                (Value::Mapping(m), None)
            }
        },
        v => (v, None),
    }
}

/// What removing the first entry with the given key leaves: the entry's
/// value, if any, and the remaining entries in order.
pub open spec fn take_key_spec(s: Seq<(Tree, Tree)>, k: Tree) -> (Option<Tree>, Seq<(Tree, Tree)>)
    decreases s,
{
    if s.len() == 0 {
        (Option::None, s)
    } else if tree_cmp(s[0].0, k) == 0 {
        (Option::Some(s[0].1), s.drop_first())
    } else {
        let rest = take_key_spec(s.drop_first(), k);
        (rest.0, seq![s[0]] + rest.1)
    }
}

/// Find and remove the entry whose key equals the tag key, for internally
/// tagged enum decoding.
#[verifier::loop_isolation(false)]
pub fn take_tag(items: Vec<(Value, Value)>, tag_key: &Value) -> (r: (
    Option<Value>,
    Vec<(Value, Value)>,
))
    ensures
        ({
            let spec = take_key_spec(tree_pairs_of(items@), tag_key.dv());
            (match r.0 {
                Option::Some(v) => spec.0 == Option::Some(v.dv()),
                Option::None => spec.0 is None,
            }) && tree_pairs_of(r.1@) == spec.1
        }),
{
    proof {
        lemma_tree_pairs_of(items@);
    }
    let ghost s = tree_pairs_of(items@);
    let ghost kt = tag_key.dv();
    let mut j: usize = 0;
    while j < items.len()
        invariant
            j <= items@.len(),
            forall|i: int| 0 <= i < j ==> tree_cmp(#[trigger] s[i].0, kt) != 0,
        decreases items@.len() - j,
    {
        let c = value_cmp(&items[j].0, tag_key);
        if c == 0 {
            let mut items = items;
            let e = items.remove(j);
            proof {
                lemma_tree_pairs_of(items@);
                lemma_take_key_at(s, kt, j as int);
                assert(tree_pairs_of(items@) =~= s.take(j as int) + s.skip(j as int + 1));
            }
            return (Some(e.1), items);
        }
        j += 1;
    }
    proof {
        lemma_take_key_none(s, kt);
    }
    (None, items)
}

proof fn lemma_take_key_at(s: Seq<(Tree, Tree)>, k: Tree, j: int)
    requires
        0 <= j < s.len(),
        forall|i: int| 0 <= i < j ==> tree_cmp(#[trigger] s[i].0, k) != 0,
        tree_cmp(s[j].0, k) == 0,
    ensures
        take_key_spec(s, k) == (Option::Some(s[j].1), s.take(j) + s.skip(j + 1)),
    decreases j,
{
    if j == 0 {
        assert(s.take(0) + s.skip(1) =~= s.drop_first());
    } else {
        assert(forall|i: int|
            0 <= i < j - 1 ==> #[trigger] s.drop_first()[i] == s[i + 1] && tree_cmp(
                s[i + 1].0,
                k,
            ) != 0);
        assert(s.drop_first()[j - 1] == s[j]);
        lemma_take_key_at(s.drop_first(), k, j - 1);
        assert(seq![s[0]] + (s.drop_first().take(j - 1) + s.drop_first().skip(j)) =~= s.take(j)
            + s.skip(j + 1));
    }
}

proof fn lemma_take_key_none(s: Seq<(Tree, Tree)>, k: Tree)
    requires
        forall|i: int| 0 <= i < s.len() ==> tree_cmp(#[trigger] s[i].0, k) != 0,
    ensures
        take_key_spec(s, k).0 is None,
        take_key_spec(s, k).1 == s,
    decreases s,
{
    if s.len() > 0 {
        assert(forall|i: int|
            0 <= i < s.drop_first().len() ==> #[trigger] s.drop_first()[i] == s[i + 1] && tree_cmp(
                s[i + 1].0,
                k,
            ) != 0);
        lemma_take_key_none(s.drop_first(), k);
        assert(seq![s[0]] + s.drop_first() =~= s);
    }
}

/// The strict sorted-merge destructure: walk the sorted map once against the
/// sorted schema keys.  A map key below the next schema key is unknown; an
/// equal key is consumed for the field; a greater key leaves the field
/// absent.  Entries left after all keys are unknown unless allowed.
pub open spec fn destructure_spec(
    pairs: Seq<(Tree, Tree)>,
    keys: Seq<Tree>,
    allow_unknown: bool,
) -> Result<Seq<Option<Tree>>, DecodeError>
    decreases pairs.len() + keys.len(),
{
    if keys.len() == 0 {
        if pairs.len() == 0 || allow_unknown {
            Result::Ok(Seq::empty())
        } else {
            Result::Err(DecodeError::UnknownField)
        }
    } else if pairs.len() == 0 {
        match destructure_spec(pairs, keys.drop_first(), allow_unknown) {
            Result::Ok(rest) => Result::Ok(seq![Option::None] + rest),
            Result::Err(e) => Result::Err(e),
        }
    } else {
        let c = tree_cmp(pairs[0].0, keys[0]);
        if c < 0 {
            Result::Err(DecodeError::UnknownField)
        } else if c == 0 {
            match destructure_spec(pairs.drop_first(), keys.drop_first(), allow_unknown) {
                Result::Ok(rest) => Result::Ok(seq![Option::Some(pairs[0].1)] + rest),
                Result::Err(e) => Result::Err(e),
            }
        } else {
            match destructure_spec(pairs, keys.drop_first(), allow_unknown) {
                Result::Ok(rest) => Result::Ok(seq![Option::None] + rest),
                Result::Err(e) => Result::Err(e),
            }
        }
    }
}

/// Prepend already-produced fields to the outcome of destructuring the
/// remainder.
pub open spec fn compose_destructure(
    acc: Seq<Option<Tree>>,
    rest: Result<Seq<Option<Tree>>, DecodeError>,
) -> Result<Seq<Option<Tree>>, DecodeError> {
    match rest {
        Result::Ok(r2) => Result::Ok(acc + r2),
        Result::Err(e) => Result::Err(e),
    }
}

/// The trees of a sequence of optional values.
pub open spec fn opt_trees(s: Seq<Option<Value>>) -> Seq<Option<Tree>> {
    Seq::new(
        s.len(),
        |i: int|
            match s[i] {
                Option::Some(v) => Option::Some(tree_of(v)),
                Option::None => Option::None,
            },
    )
}

/// Destructure a struct's map value against its sorted schema keys,
/// returning one optional value per key.
#[verifier::loop_isolation(false)]
pub fn destructure_map(value: Value, keys: &Vec<Value>, allow_unknown: bool) -> (r: Result<
    Vec<Option<Value>>,
    DecodeError,
>)
    ensures
        ({
            match value.dv() {
                Tree::Mapping(pairs) => match r {
                    Result::Ok(out) => destructure_spec(pairs, trees_of(keys@), allow_unknown)
                        == Result::<Seq<Option<Tree>>, DecodeError>::Ok(opt_trees(out@)),
                    Result::Err(e) => destructure_spec(pairs, trees_of(keys@), allow_unknown)
                        == Result::<Seq<Option<Tree>>, DecodeError>::Err(e),
                },
                _ => r == Result::<Vec<Option<Value>>, DecodeError>::Err(
                    DecodeError::UnexpectedType,
                ),
            }
        }),
{
    let m = match value {
        Value::Mapping(m) => m,
        _ => {
            return Err(DecodeError::UnexpectedType);
        },
    };
    proof {
        lemma_trees_of(keys@);
        lemma_tree_pairs_of(m@);
    }
    let ghost all_pairs = tree_pairs_of(m@);
    let ghost all_keys = trees_of(keys@);
    let mut rest = m;
    let mut out: Vec<Option<Value>> = Vec::new();
    let mut i: usize = 0;
    proof {
        assert(all_keys.skip(0) =~= all_keys);
        assert(opt_trees(out@) =~= Seq::<Option<Tree>>::empty());
        match destructure_spec(all_pairs, all_keys, allow_unknown) {
            Result::Ok(r2) => {
                assert(Seq::<Option<Tree>>::empty() + r2 =~= r2);
            },
            Result::Err(_) => {},
        }
    }
    while i < keys.len()
        invariant
            i <= keys@.len(),
            out@.len() == i,
            destructure_spec(all_pairs, all_keys, allow_unknown) == compose_destructure(
                opt_trees(out@),
                destructure_spec(tree_pairs_of(rest@), all_keys.skip(i as int), allow_unknown),
            ),
        decreases keys@.len() - i,
    {
        proof {
            lemma_tree_pairs_of(rest@);
            assert(all_keys.skip(i as int)[0] == all_keys[i as int]);
            assert(all_keys.skip(i as int).drop_first() =~= all_keys.skip(i as int + 1));
        }
        let ghost rp = tree_pairs_of(rest@);
        let ghost acc = opt_trees(out@);
        if rest.len() == 0 {
            out.push(None);
            proof {
                assert(opt_trees(out@) =~= acc + seq![Option::<Tree>::None]);
                match destructure_spec(rp, all_keys.skip(i as int + 1), allow_unknown) {
                    Result::Ok(r2) => {
                        assert((acc + seq![Option::<Tree>::None]) + r2 =~= acc + (seq![
                            Option::<Tree>::None,
                        ] + r2));
                    },
                    Result::Err(_) => {},
                }
            }
        } else {
            let c = value_cmp(&rest[0].0, &keys[i]);
            proof {
                assert(rp[0] == (tree_of(rest@[0].0), tree_of(rest@[0].1)));
            }
            if c < 0 {
                return Err(DecodeError::UnknownField);
            } else if c == 0 {
                let e = rest.remove(0);
                out.push(Some(e.1));
                proof {
                    lemma_tree_pairs_of(rest@);
                    assert(tree_pairs_of(rest@) =~= rp.drop_first());
                    assert(opt_trees(out@) =~= acc + seq![Option::Some(rp[0].1)]);
                    match destructure_spec(rp.drop_first(), all_keys.skip(i as int + 1),
                        allow_unknown) {
                        Result::Ok(r2) => {
                            assert((acc + seq![Option::Some(rp[0].1)]) + r2 =~= acc + (seq![
                                Option::Some(rp[0].1),
                            ] + r2));
                        },
                        Result::Err(_) => {},
                    }
                }
            } else {
                out.push(None);
                proof {
                    assert(opt_trees(out@) =~= acc + seq![Option::<Tree>::None]);
                    match destructure_spec(rp, all_keys.skip(i as int + 1), allow_unknown) {
                        Result::Ok(r2) => {
                            assert((acc + seq![Option::<Tree>::None]) + r2 =~= acc + (seq![
                                Option::<Tree>::None,
                            ] + r2));
                        },
                        Result::Err(_) => {},
                    }
                }
            }
        }
        i += 1;
    }
    proof {
        lemma_tree_pairs_of(rest@);
        assert(all_keys.skip(i as int).len() == 0);
    }
    if rest.len() > 0 && !allow_unknown {
        return Err(DecodeError::UnknownField);
    }
    proof {
        assert(opt_trees(out@) + Seq::<Option<Tree>>::empty() =~= opt_trees(out@));
    }
    Ok(out)
}

/// Destructure a positional array carrier: one element per non-skipped
/// field; fewer is a missing field, more is unknown unless allowed.
pub fn destructure_array(value: Value, n: usize, allow_unknown: bool) -> (r: Result<
    Vec<Value>,
    DecodeError,
>)
    ensures
        ({
            match value.dv() {
                Tree::Array(s) => match r {
                    Result::Ok(out) => (s.len() == n || (allow_unknown && s.len() > n)) && trees_of(
                        out@,
                    ) == s.take(n as int),
                    Result::Err(e) => (s.len() < n && e == DecodeError::MissingField) || (s.len()
                        > n && !allow_unknown && e == DecodeError::UnknownField),
                },
                _ => r == Result::<Vec<Value>, DecodeError>::Err(DecodeError::UnexpectedType),
            }
        }),
{
    match value {
        Value::Array(a) => {
            proof {
                lemma_trees_of(a@);
            }
            if a.len() < n {
                Err(DecodeError::MissingField)
            } else if a.len() > n && !allow_unknown {
                Err(DecodeError::UnknownField)
            } else {
                let ghost a0 = a@;
                let mut a = a;
                a.truncate(n);
                proof {
                    lemma_trees_of(a@);
                    assert(a@ =~= a0.take(n as int));
                    assert(trees_of(a@) =~= trees_of(a0).take(n as int));
                }
                Ok(a)
            }
        },
        _ => Err(DecodeError::UnexpectedType),
    }
}

/// The keys of a run of map entries, in order.
pub open spec fn keys_of(s: Seq<(Tree, Tree)>) -> Seq<Tree> {
    Seq::new(s.len(), |i: int| s[i].0)
}

/// The values of a run of map entries, each present, in order.
pub open spec fn some_values_of(s: Seq<(Tree, Tree)>) -> Seq<Option<Tree>> {
    Seq::new(s.len(), |i: int| Option::Some(s[i].1))
}

/// Destructuring a map against exactly its own keys recovers every value:
/// the struct round trip at the engine level.
pub proof fn lemma_destructure_round_trip(p: Seq<(Tree, Tree)>, allow_unknown: bool)
    ensures
        destructure_spec(p, keys_of(p), allow_unknown) == Result::<
            Seq<Option<Tree>>,
            DecodeError,
        >::Ok(some_values_of(p)),
    decreases p.len(),
{
    if p.len() == 0 {
        assert(keys_of(p).len() == 0);
        assert(some_values_of(p) =~= Seq::<Option<Tree>>::empty());
    } else {
        lemma_cmp_refl(p[0].0);
        assert(keys_of(p)[0] == p[0].0);
        assert(keys_of(p).drop_first() =~= keys_of(p.drop_first()));
        lemma_destructure_round_trip(p.drop_first(), allow_unknown);
        assert(seq![Option::Some(p[0].1)] + some_values_of(p.drop_first()) =~= some_values_of(p));
    }
}

/// Strictly ascending keys.
pub open spec fn keys_sorted(keys: Seq<Tree>) -> bool {
    forall|i: int| 0 <= i && i + 1 < keys.len() ==> tree_cmp(#[trigger] keys[i], keys[i + 1]) < 0
}

/// A closed destructure that succeeds saw a sorted map: out-of-order input
/// is caught as an unknown field, so only sorted maps reach a struct.
pub proof fn lemma_destructure_needs_sorted(p: Seq<(Tree, Tree)>, keys: Seq<Tree>)
    requires
        keys_sorted(keys),
        destructure_spec(p, keys, false) is Ok,
    ensures
        pairs_sorted(p),
        p.len() > 0 && keys.len() > 0 ==> tree_cmp(p[0].0, keys[0]) >= 0,
    decreases p.len() + keys.len(),
{
    if keys.len() == 0 {
        assert(p.len() == 0);
    } else if p.len() == 0 {
    } else {
        let c = tree_cmp(p[0].0, keys[0]);
        assert(c >= 0);
        assert(forall|i: int|
            0 <= i && i + 1 < keys.drop_first().len() ==> #[trigger] keys.drop_first()[i] == keys[i
                + 1] && keys.drop_first()[i + 1] == keys[i + 2]);
        if c == 0 {
            lemma_cmp_zero(p[0].0, keys[0]);
            lemma_destructure_needs_sorted(p.drop_first(), keys.drop_first());
            assert forall|i: int| 0 <= i && i + 1 < p.len() implies tree_cmp(
                #[trigger] p[i].0,
                p[i + 1].0,
            ) < 0 by {
                if i == 0 {
                    if p.drop_first().len() > 0 && keys.drop_first().len() > 0 {
                        // p[1].0 >= keys[1] > keys[0] == p[0].0
                        assert(tree_cmp(p.drop_first()[0].0, keys.drop_first()[0]) >= 0);
                        assert(tree_cmp(keys[0], keys[1]) < 0);
                        lemma_cmp_antisym(p[1].0, keys[1]);
                        if tree_cmp(keys[1], p[1].0) == 0 {
                            lemma_cmp_zero(keys[1], p[1].0);
                        } else {
                            lemma_cmp_trans_strict(keys[0], keys[1], p[1].0);
                        }
                    } else if p.drop_first().len() > 0 {
                        // keys exhausted but pairs remain: destructure would fail
                        assert(false);
                    }
                } else {
                    assert(p.drop_first()[i - 1] == p[i] && p.drop_first()[i] == p[i + 1]);
                }
            }
        } else {
            lemma_destructure_needs_sorted(p, keys.drop_first());
            if p.len() > 0 && keys.drop_first().len() > 0 {
            } else {
                assert(keys.drop_first().len() == 0);
                assert(p.len() == 0);
            }
        }
    }
}

/// The first index whose key compares equal to the given one under the
/// canonical order, as enum decoding matches a discriminator against the
/// variant keys in source order.
#[verifier::loop_isolation(false)]
pub fn match_key(keys: &Vec<Value>, key: &Value) -> (r: Option<usize>)
    ensures
        match r {
            Option::Some(i) => i < keys@.len() && tree_cmp(
                #[trigger] trees_of(keys@)[i as int],
                key.dv(),
            ) == 0 && (forall|j: int|
                0 <= j < i ==> tree_cmp(#[trigger] trees_of(keys@)[j], key.dv()) != 0),
            Option::None => forall|j: int|
                0 <= j < keys@.len() ==> tree_cmp(#[trigger] trees_of(keys@)[j], key.dv()) != 0,
        },
{
    proof {
        lemma_trees_of(keys@);
    }
    let mut i: usize = 0;
    while i < keys.len()
        invariant
            i <= keys@.len(),
            forall|j: int| 0 <= j < i ==> tree_cmp(#[trigger] trees_of(keys@)[j], key.dv()) != 0,
        decreases keys@.len() - i,
    {
        let c = value_cmp(&keys[i], key);
        if c == 0 {
            return Some(i);
        }
        i += 1;
    }
    None
}

/// A tree with every map in it re-sorted into canonical key order: what the
/// non-strict decoding path hands to the destructure.
pub open spec fn canon_spec(t: Tree) -> Tree
    decreases t,
{
    match t {
        Tree::Array(s) => Tree::Array(canon_seq(s)),
        Tree::Mapping(s) => Tree::Mapping(sort_pairs(canon_pairs(s))),
        Tree::Tag(n, b) => Tree::Tag(n, Box::new(canon_spec(*b))),
        _ => t,
    }
}

pub open spec fn canon_seq(s: Seq<Tree>) -> Seq<Tree>
    decreases s,
{
    if s.len() == 0 {
        Seq::empty()
    } else {
        seq![canon_spec(s[0])] + canon_seq(s.drop_first())
    }
}

pub open spec fn canon_pairs(s: Seq<(Tree, Tree)>) -> Seq<(Tree, Tree)>
    decreases s,
{
    if s.len() == 0 {
        Seq::empty()
    } else {
        seq![(canon_spec(s[0].0), canon_spec(s[0].1))] + canon_pairs(s.drop_first())
    }
}

proof fn lemma_canon_seq(s: Seq<Tree>)
    ensures
        canon_seq(s).len() == s.len(),
        forall|i: int| 0 <= i < s.len() ==> canon_seq(s)[i] == canon_spec(s[i]),
    decreases s.len(),
{
    if s.len() > 0 {
        lemma_canon_seq(s.drop_first());
    }
}

proof fn lemma_canon_pairs(s: Seq<(Tree, Tree)>)
    ensures
        canon_pairs(s).len() == s.len(),
        forall|i: int|
            0 <= i < s.len() ==> canon_pairs(s)[i] == (canon_spec(s[i].0), canon_spec(s[i].1)),
    decreases s.len(),
{
    if s.len() > 0 {
        lemma_canon_pairs(s.drop_first());
    }
}

/// Re-sort every map in the value into canonical key order, recursively.
#[verifier::loop_isolation(false)]
pub fn canonicalize(v: Value) -> (r: Value)
    ensures
        r.dv() == canon_spec(v.dv()),
    decreases v,
{
    match v {
        Value::Array(a) => {
            let ghost va = a;
            proof {
                lemma_trees_of(va@);
                lemma_canon_seq(trees_of(va@));
            }
            let mut rest = a;
            let mut out: Vec<Value> = Vec::new();
            while rest.len() > 0
                invariant
                    out@.len() + rest@.len() == va@.len(),
                    forall|k: int| 0 <= k < rest@.len() ==> #[trigger] rest@[k] == va@[out@.len()
                        + k],
                    forall|k: int| 0 <= k < out@.len() ==> tree_of(#[trigger] out@[k])
                        == canon_spec(tree_of(va@[k])),
                decreases rest@.len(),
            {
                let x = rest.remove(0);
                proof {
                    assert(x == va@[out@.len() as int]);
                    assert(decreases_to!(v => va));
                    assert(decreases_to!(va => va@));
                    assert(decreases_to!(va@ => va@[out@.len() as int]));
                    assert(decreases_to!(v => x));
                }
                let y = canonicalize(x);
                out.push(y);
            }
            proof {
                lemma_trees_of(out@);
                assert(trees_of(out@) =~= canon_seq(trees_of(va@)));
            }
            Value::Array(out)
        },
        Value::Mapping(m) => {
            let ghost vm = m;
            proof {
                lemma_tree_pairs_of(vm@);
                lemma_canon_pairs(tree_pairs_of(vm@));
            }
            let mut rest = m;
            let mut out: Vec<(Value, Value)> = Vec::new();
            while rest.len() > 0
                invariant
                    out@.len() + rest@.len() == vm@.len(),
                    forall|k: int| 0 <= k < rest@.len() ==> #[trigger] rest@[k] == vm@[out@.len()
                        + k],
                    forall|k: int|
                        0 <= k < out@.len() ==> (tree_of(#[trigger] out@[k].0), tree_of(
                            out@[k].1,
                        )) == (canon_spec(tree_of(vm@[k].0)), canon_spec(tree_of(vm@[k].1))),
                decreases rest@.len(),
            {
                let x = rest.remove(0);
                proof {
                    assert(x == vm@[out@.len() as int]);
                    assert(decreases_to!(v => vm));
                    assert(decreases_to!(vm => vm@));
                    assert(decreases_to!(vm@ => vm@[out@.len() as int]));
                    assert(decreases_to!(vm@[out@.len() as int] => vm@[out@.len() as int].0));
                    assert(decreases_to!(vm@[out@.len() as int] => vm@[out@.len() as int].1));
                    assert(decreases_to!(v => x.0));
                    assert(decreases_to!(v => x.1));
                }
                let k = canonicalize(x.0);
                let w = canonicalize(x.1);
                out.push((k, w));
            }
            proof {
                lemma_tree_pairs_of(out@);
                assert(tree_pairs_of(out@) =~= canon_pairs(tree_pairs_of(vm@)));
            }
            build_struct_map(out)
        },
        Value::Tag(t, b) => {
            proof {
                assert(decreases_to!(v => *b));
            }
            Value::Tag(t, Box::new(canonicalize(*b)))
        },
        other => other,
    }
}

} // verus!
