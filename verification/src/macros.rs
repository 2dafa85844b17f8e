//! Support for generated and hand-written codecs: the strict peeking
//! destructure step over a decoded CBOR map.
use vstd::prelude::*;

use crate::values::{tree_cmp, tree_pairs_of, Tree, Value};
use crate::DecodeError;

verus! {

/// A cursor over the remaining entries of a decoded CBOR map, consumed from
/// the front.
pub struct MapEntries {
    pub entries: Vec<(Value, Value)>,
}

impl MapEntries {
    /// The remaining entries, as trees.
    pub open spec fn remaining(&self) -> Seq<(Tree, Tree)> {
        tree_pairs_of(self.entries@)
    }

    /// Start a cursor over the entries of a map.
    pub fn new(entries: Vec<(Value, Value)>) -> (r: MapEntries)
        ensures
            r.remaining() == tree_pairs_of(entries@),
    {
        MapEntries { entries }
    }

    /// Whether any entry remains unconsumed.
    pub fn is_exhausted(&self) -> (r: bool)
        ensures
            r == (self.remaining().len() == 0),
    {
        proof {
            crate::values::lemma_tree_pairs_of(self.entries@);
        }
        self.entries.len() == 0
    }
}

/// One step of the strict sorted-merge destructure: peek the next entry of
/// the map and compare its key against the wanted one.  An earlier key is an
/// unknown field; an equal key is consumed and its value returned; a later
/// key means the wanted field is absent and the cursor does not move.
pub fn destructure_cbor_map_peek_value_strict(it: &mut MapEntries, needle: Value) -> (r: Result<
    Option<Value>,
    DecodeError,
>)
    ensures
        ({
            let s = old(it).remaining();
            match r {
                Result::Ok(Option::Some(v)) => s.len() > 0 && tree_cmp(s[0].0, needle.dv()) == 0
                    && v.dv() == s[0].1 && final(it).remaining() == s.drop_first(),
                Result::Ok(Option::None) => (s.len() == 0 || tree_cmp(s[0].0, needle.dv()) > 0)
                    && final(it).remaining() == s,
                Result::Err(e) => e == DecodeError::UnknownField && s.len() > 0 && tree_cmp(
                    s[0].0,
                    needle.dv(),
                ) < 0 && final(it).remaining() == s,
            }
        }),
{
    proof {
        crate::values::lemma_tree_pairs_of(it.entries@);
    }
    if it.entries.len() == 0 {
        return Ok(None);
    }
    let c = crate::values::value_cmp(&it.entries[0].0, &needle);
    if c < 0 {
        Err(DecodeError::UnknownField)
    } else if c == 0 {
        let entry = it.entries.remove(0);
        proof {
            crate::values::lemma_tree_pairs_of(it.entries@);
            assert(tree_pairs_of(it.entries@) =~= tree_pairs_of(old(it).entries@).drop_first());
        }
        Ok(Some(entry.1))
    } else {
        Ok(None)
    }
}

} // verus!
