//! Carriers over plain vectors: a byte vector that encodes as a CBOR byte
//! string, an association list that encodes as a canonically sorted CBOR
//! map, and an item list that encodes as a CBOR array.
use vstd::prelude::*;

use crate::codec::{build_struct_map, lemma_sort_pairs_identity, sort_pairs};
use crate::decode::{dec_seq_spec, Decode, Lossless};
use crate::encode::{enc_seq_spec, Encode, EncodeAsMap};
use crate::values::{
    lemma_tree_pairs_of, pairs_sorted, pairs_wf, tree_of, tree_pairs_of, tree_wf, Tree, Value,
};
use crate::DecodeError;

verus! {

/// A byte vector carrying a CBOR byte string.  Without specialization the
/// generic `Vec<u8>` codec is the elementwise array form; this newtype
/// carries the byte-string form through the same traits.
pub struct Bytes(pub Vec<u8>);

impl DeepView for Bytes {
    type V = Seq<u8>;

    open spec fn deep_view(&self) -> Seq<u8> {
        self.0.deep_view()
    }
}

impl Encode for Bytes {
    open spec fn enc_spec(t: Seq<u8>) -> Tree {
        Tree::Bytes(t)
    }

    open spec fn empty_spec(t: Seq<u8>) -> bool {
        t.len() == 0
    }

    fn is_empty(&self) -> (r: bool) {
        let r = self.0.len() == 0;
        proof {
            assert(self.deep_view() =~= self.0@);
        }
        r
    }

    fn into_cbor_value(self) -> (r: Value) {
        proof {
            assert(self.deep_view() =~= self.0@);
        }
        Value::ByteString(self.0)
    }
}

impl Decode for Bytes {
    open spec fn default_spec() -> Result<Seq<u8>, DecodeError> {
        Result::Ok(Seq::empty())
    }

    open spec fn dec_spec(t: Tree) -> Result<Seq<u8>, DecodeError> {
        match t {
            Tree::Bytes(b) => Result::Ok(b),
            _ => Result::Err(DecodeError::UnexpectedType),
        }
    }

    fn try_default() -> (r: Result<Self, DecodeError>) {
        let b = Bytes(Vec::new());
        proof {
            assert(b.deep_view() =~= Seq::<u8>::empty());
        }
        Ok(b)
    }

    fn try_from_cbor_value(value: Value) -> (r: Result<Self, DecodeError>) {
        match value {
            Value::ByteString(b) => {
                let r = Bytes(b);
                proof {
                    assert(r.deep_view() =~= r.0@);
                }
                Ok(r)
            },
            _ => Err(DecodeError::UnexpectedType),
        }
    }
}

impl Lossless for Bytes {
    proof fn lemma_round_trip(t: Seq<u8>) {
    }
}

impl crate::decode::EncodeNonNull for Bytes {
    proof fn lemma_enc_not_null(t: Seq<u8>) {
    }
}

/// An association list carrying a CBOR map.  Entries are held in any order
/// and sorted into canonical key order at emission time; decoding keeps the
/// wire order, which the strict byte path guarantees to be sorted.  A map
/// is [`canonical`](CborMap::canonical) when its entries are held strictly
/// sorted by encoded key — which also makes the keys distinct — and such a
/// map round-trips unchanged, by [`lemma_map_round_trip`].
pub struct CborMap<K, V> {
    pub entries: Vec<(K, V)>,
}

impl<K: DeepView, V: DeepView> DeepView for CborMap<K, V> {
    type V = Seq<(K::V, V::V)>;

    open spec fn deep_view(&self) -> Seq<(K::V, V::V)> {
        self.entries.deep_view()
    }
}

/// The elementwise encoding of a sequence of key/value pairs.
pub open spec fn enc_pairs_spec<K: Encode, V: Encode>(t: Seq<(K::V, V::V)>) -> Seq<(Tree, Tree)> {
    Seq::new(t.len(), |i: int| (K::enc_spec(t[i].0), V::enc_spec(t[i].1)))
}

/// The elementwise decoding of a sequence of key/value pair trees: the
/// decoded pairs in order, or the first error, keys before values.
pub open spec fn dec_pairs_spec<K: Decode, V: Decode>(s: Seq<(Tree, Tree)>) -> Result<
    Seq<(K::V, V::V)>,
    DecodeError,
>
    decreases s,
{
    if s.len() == 0 {
        Result::Ok(Seq::empty())
    } else {
        match (K::dec_spec(s[0].0), V::dec_spec(s[0].1)) {
            (Result::Ok(k), Result::Ok(v)) => match dec_pairs_spec::<K, V>(s.drop_first()) {
                Result::Ok(rest) => Result::Ok(seq![(k, v)] + rest),
                Result::Err(e) => Result::Err(e),
            },
            (Result::Err(e), _) => Result::Err(e),
            (_, Result::Err(e)) => Result::Err(e),
        }
    }
}

impl<K: Encode, V: Encode> Encode for CborMap<K, V> {
    open spec fn enc_spec(t: Seq<(K::V, V::V)>) -> Tree {
        Tree::Mapping(sort_pairs(enc_pairs_spec::<K, V>(t)))
    }

    open spec fn empty_spec(t: Seq<(K::V, V::V)>) -> bool {
        t.len() == 0
    }

    fn is_empty(&self) -> (r: bool) {
        self.entries.len() == 0
    }

    #[verifier::loop_isolation(false)]
    fn into_cbor_value(self) -> (r: Value) {
        let ghost orig = self.deep_view();
        let mut rest = self.entries;
        let mut out: Vec<(Value, Value)> = Vec::new();
        while rest.len() > 0
            invariant
                out@.len() + rest@.len() == orig.len(),
                forall|i: int|
                    0 <= i < rest@.len() ==> (#[trigger] rest@[i]).deep_view() == orig[out@.len()
                        + i],
                forall|i: int|
                    0 <= i < out@.len() ==> (tree_of(#[trigger] out@[i].0), tree_of(out@[i].1))
                        == (K::enc_spec(orig[i].0), V::enc_spec(orig[i].1)),
            decreases rest@.len(),
        {
            let (k, v) = rest.remove(0);
            out.push((k.into_cbor_value(), v.into_cbor_value()));
        }
        proof {
            lemma_tree_pairs_of(out@);
            assert(tree_pairs_of(out@) =~= enc_pairs_spec::<K, V>(orig));
        }
        build_struct_map(out)
    }
}

impl<K: Encode, V: Encode> EncodeAsMap for CborMap<K, V> {
    proof fn lemma_encodes_as_map(t: Seq<(K::V, V::V)>) {
    }
}

impl<K: Encode, V: Encode> CborMap<K, V> {
    /// The map's invariant on canonically held entries: strictly ascending
    /// under the canonical order of their encoded keys, hence distinct.
    pub open spec fn canonical(&self) -> bool {
        pairs_sorted(enc_pairs_spec::<K, V>(self.deep_view()))
    }
}

/// Elementwise round trip for sequences of non-lossy key/value pairs.
proof fn lemma_round_trip_pairs<K: Lossless, V: Lossless>(t: Seq<(K::V, V::V)>)
    ensures
        dec_pairs_spec::<K, V>(enc_pairs_spec::<K, V>(t)) == Result::<
            Seq<(K::V, V::V)>,
            DecodeError,
        >::Ok(t),
        pairs_wf(enc_pairs_spec::<K, V>(t)),
    decreases t.len(),
{
    let es = enc_pairs_spec::<K, V>(t);
    if t.len() == 0 {
        assert(es.len() == 0);
        assert(t =~= Seq::<(K::V, V::V)>::empty());
    } else {
        K::lemma_round_trip(t[0].0);
        V::lemma_round_trip(t[0].1);
        lemma_round_trip_pairs::<K, V>(t.drop_first());
        assert(es[0] == (K::enc_spec(t[0].0), V::enc_spec(t[0].1)));
        assert(es.drop_first() =~= enc_pairs_spec::<K, V>(t.drop_first()));
        assert((t[0].0, t[0].1) == t[0]);
        assert(seq![t[0]] + t.drop_first() =~= t);
    }
}

/// The map round trip: a canonically held entry list — strictly sorted by
/// encoded key — decodes from its own encoding unchanged, and that encoding
/// is well formed.
pub proof fn lemma_map_round_trip<K: Lossless, V: Lossless>(t: Seq<(K::V, V::V)>)
    requires
        pairs_sorted(enc_pairs_spec::<K, V>(t)),
    ensures
        CborMap::<K, V>::dec_spec(CborMap::<K, V>::enc_spec(t)) == Result::<
            Seq<(K::V, V::V)>,
            DecodeError,
        >::Ok(t),
        tree_wf(CborMap::<K, V>::enc_spec(t)),
{
    lemma_sort_pairs_identity(enc_pairs_spec::<K, V>(t));
    lemma_round_trip_pairs::<K, V>(t);
}

/// Splitting an elementwise pair decode after a prefix of successes.
proof fn lemma_dec_pairs_prefix<K: Decode, V: Decode>(
    s: Seq<(Tree, Tree)>,
    done: Seq<(K::V, V::V)>,
    i: int,
)
    requires
        0 <= i <= s.len(),
        done.len() == i,
        forall|j: int|
            0 <= j < i ==> K::dec_spec(s[j].0) == Result::<K::V, DecodeError>::Ok(
                (#[trigger] done[j]).0,
            ) && V::dec_spec(s[j].1) == Result::<V::V, DecodeError>::Ok(done[j].1),
    ensures
        dec_pairs_spec::<K, V>(s) == (match dec_pairs_spec::<K, V>(s.skip(i)) {
            Result::Ok(rest) => Result::<Seq<(K::V, V::V)>, DecodeError>::Ok(done + rest),
            Result::Err(e) => Result::<Seq<(K::V, V::V)>, DecodeError>::Err(e),
        }),
    decreases i,
{
    if i == 0 {
        assert(s.skip(0) =~= s);
        match dec_pairs_spec::<K, V>(s) {
            Result::Ok(rest) => {
                assert(done + rest =~= rest);
            },
            Result::Err(_) => {},
        }
    } else {
        lemma_dec_pairs_prefix::<K, V>(s, done.take(i - 1), i - 1);
        assert(s.skip(i - 1).len() > 0);
        assert(s.skip(i - 1)[0] == s[i - 1]);
        assert(s.skip(i - 1).drop_first() =~= s.skip(i));
        assert(K::dec_spec(s[i - 1].0) == Result::<K::V, DecodeError>::Ok(done[i - 1].0));
        assert(V::dec_spec(s[i - 1].1) == Result::<V::V, DecodeError>::Ok(done[i - 1].1));
        match dec_pairs_spec::<K, V>(s.skip(i)) {
            Result::Ok(rest) => {
                assert(dec_pairs_spec::<K, V>(s.skip(i - 1)) == Result::<
                    Seq<(K::V, V::V)>,
                    DecodeError,
                >::Ok(seq![(done[i - 1].0, done[i - 1].1)] + rest));
                assert((done[i - 1].0, done[i - 1].1) == done[i - 1]);
                assert(done.take(i - 1) + (seq![done[i - 1]] + rest) =~= done + rest);
            },
            Result::Err(_) => {},
        }
    }
}

impl<K: Decode, V: Decode> Decode for CborMap<K, V> {
    open spec fn default_spec() -> Result<Seq<(K::V, V::V)>, DecodeError> {
        Result::Ok(Seq::empty())
    }

    open spec fn dec_spec(t: Tree) -> Result<Seq<(K::V, V::V)>, DecodeError> {
        match t {
            Tree::Mapping(s) => dec_pairs_spec::<K, V>(s),
            _ => Result::Err(DecodeError::UnexpectedType),
        }
    }

    fn try_default() -> (r: Result<Self, DecodeError>) {
        let m = CborMap { entries: Vec::new() };
        proof {
            assert(m.deep_view() =~= Seq::<(K::V, V::V)>::empty());
        }
        Ok(m)
    }

    #[verifier::loop_isolation(false)]
    fn try_from_cbor_value(value: Value) -> (r: Result<Self, DecodeError>) {
        match value {
            Value::Mapping(m) => {
                let ghost ts = tree_pairs_of(m@);
                proof {
                    lemma_tree_pairs_of(m@);
                }
                let mut rest = m;
                let mut out: Vec<(K, V)> = Vec::new();
                while rest.len() > 0
                    invariant
                        out@.len() + rest@.len() == ts.len(),
                        forall|i: int|
                            0 <= i < rest@.len() ==> (tree_of(#[trigger] rest@[i].0), tree_of(
                                rest@[i].1,
                            )) == ts[out@.len() + i],
                        forall|i: int|
                            0 <= i < out@.len() ==> K::dec_spec(ts[i].0) == Result::<
                                K::V,
                                DecodeError,
                            >::Ok((#[trigger] out@[i]).deep_view().0) && V::dec_spec(ts[i].1)
                                == Result::<V::V, DecodeError>::Ok(out@[i].deep_view().1),
                    decreases rest@.len(),
                {
                    let (kv, vv) = rest.remove(0);
                    let ghost at = out@.len() as int;
                    let k = match K::try_from_cbor_value(kv) {
                        Result::Ok(k) => k,
                        Result::Err(e) => {
                            proof {
                                lemma_dec_pairs_prefix::<K, V>(ts, out.deep_view(), at);
                                assert(ts.skip(at)[0] == ts[at]);
                            }
                            return Err(e);
                        },
                    };
                    let v = match V::try_from_cbor_value(vv) {
                        Result::Ok(v) => v,
                        Result::Err(e) => {
                            proof {
                                lemma_dec_pairs_prefix::<K, V>(ts, out.deep_view(), at);
                                assert(ts.skip(at)[0] == ts[at]);
                            }
                            return Err(e);
                        },
                    };
                    out.push((k, v));
                }
                proof {
                    lemma_dec_pairs_prefix::<K, V>(ts, out.deep_view(), out@.len() as int);
                    assert(ts.skip(out@.len() as int).len() == 0);
                    assert(out.deep_view() + Seq::<(K::V, V::V)>::empty() =~= out.deep_view());
                }
                Ok(CborMap { entries: out })
            },
            _ => Err(DecodeError::UnexpectedType),
        }
    }
}

/// An item list carrying a CBOR set, encoded as an array of the items in
/// their held order; distinctness is the holder's concern.
pub struct CborSet<T> {
    pub items: Vec<T>,
}

impl<T: DeepView> DeepView for CborSet<T> {
    type V = Seq<T::V>;

    open spec fn deep_view(&self) -> Seq<T::V> {
        self.items.deep_view()
    }
}

impl<T: Encode> Encode for CborSet<T> {
    open spec fn enc_spec(t: Seq<T::V>) -> Tree {
        Tree::Array(enc_seq_spec::<T>(t))
    }

    open spec fn empty_spec(t: Seq<T::V>) -> bool {
        t.len() == 0
    }

    fn is_empty(&self) -> (r: bool) {
        self.items.len() == 0
    }

    fn into_cbor_value(self) -> (r: Value) {
        self.items.into_cbor_value()
    }
}

impl<T: Decode> Decode for CborSet<T> {
    open spec fn default_spec() -> Result<Seq<T::V>, DecodeError> {
        Result::Ok(Seq::empty())
    }

    open spec fn dec_spec(t: Tree) -> Result<Seq<T::V>, DecodeError> {
        match t {
            Tree::Array(s) => dec_seq_spec::<T>(s),
            _ => Result::Err(DecodeError::UnexpectedType),
        }
    }

    fn try_default() -> (r: Result<Self, DecodeError>) {
        let s = CborSet { items: Vec::<T>::new() };
        proof {
            assert(s.deep_view() =~= Seq::<T::V>::empty());
        }
        Ok(s)
    }

    fn try_from_cbor_value(value: Value) -> (r: Result<Self, DecodeError>) {
        match Vec::<T>::try_from_cbor_value(value) {
            Result::Ok(items) => Ok(CborSet { items }),
            Result::Err(e) => Err(e),
        }
    }
}

impl<T: Lossless> Lossless for CborSet<T> {
    proof fn lemma_round_trip(t: Seq<T::V>) {
        crate::decode::lemma_round_trip_seq::<T>(t);
    }
}

} // verus!
