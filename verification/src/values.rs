//! The CBOR value tree and its canonical ordering.
//!
//! A [`Value`] is the in-memory form of a CBOR document: integers, byte and
//! text strings, arrays, maps (ordered key/value pairs), tags and the four
//! supported simple values.  Its mathematical model is the [`Tree`], reached
//! through `deep_view`; text strings are modelled by their UTF-8 bytes, which
//! is also how the canonical ordering compares them.
use vstd::prelude::*;
use vstd::utf8::valid_utf8;

verus! {

/// The simple CBOR values supported by this library.
#[derive(Clone, Copy, Debug, PartialEq, Eq, Structural)]
pub enum SimpleValue {
    FalseValue,
    TrueValue,
    NullValue,
    Undefined,
}

/// A CBOR value tree.
///
/// `Negative(n)` holds the represented integer itself (always negative);
/// only values in `-2^64 ..= -1` are well formed.
#[derive(Debug)]
pub enum Value {
    Unsigned(u64),
    Negative(i128),
    ByteString(Vec<u8>),
    TextString(String),
    Array(Vec<Value>),
    Mapping(Vec<(Value, Value)>),
    Tag(u64, Box<Value>),
    Simple(SimpleValue),
}

/// The mathematical model of a [`Value`]: the same shape over `Seq`,
/// with text strings modelled by their UTF-8 bytes.
pub enum Tree {
    Unsigned(u64),
    Negative(i128),
    Bytes(Seq<u8>),
    Text(Seq<u8>),
    Array(Seq<Tree>),
    Mapping(Seq<(Tree, Tree)>),
    Tag(u64, Box<Tree>),
    Simple(SimpleValue),
}

pub open spec fn tree_of(v: Value) -> Tree
    decreases v,
{
    match v {
        Value::Unsigned(n) => Tree::Unsigned(n),
        Value::Negative(n) => Tree::Negative(n),
        Value::ByteString(b) => Tree::Bytes(b@),
        Value::TextString(s) => Tree::Text(vstd::utf8::encode_utf8(s@)),
        Value::Array(a) => Tree::Array(trees_of(a@)),
        Value::Mapping(m) => Tree::Mapping(tree_pairs_of(m@)),
        Value::Tag(t, b) => Tree::Tag(t, Box::new(tree_of(*b))),
        Value::Simple(s) => Tree::Simple(s),
    }
}

pub open spec fn trees_of(s: Seq<Value>) -> Seq<Tree>
    decreases s,
{
    if s.len() == 0 {
        Seq::empty()
    } else {
        seq![tree_of(s[0])] + trees_of(s.drop_first())
    }
}

pub open spec fn tree_pairs_of(s: Seq<(Value, Value)>) -> Seq<(Tree, Tree)>
    decreases s,
{
    if s.len() == 0 {
        Seq::empty()
    } else {
        seq![(tree_of(s[0].0), tree_of(s[0].1))] + tree_pairs_of(s.drop_first())
    }
}

pub broadcast proof fn lemma_trees_of(s: Seq<Value>)
    ensures
        (#[trigger] trees_of(s)).len() == s.len(),
        forall|i: int| 0 <= i < s.len() ==> trees_of(s)[i] == tree_of(s[i]),
    decreases s.len(),
{
    if s.len() > 0 {
        lemma_trees_of(s.drop_first());
    }
}

pub broadcast proof fn lemma_tree_pairs_of(s: Seq<(Value, Value)>)
    ensures
        (#[trigger] tree_pairs_of(s)).len() == s.len(),
        forall|i: int|
            0 <= i < s.len() ==> tree_pairs_of(s)[i] == (tree_of(s[i].0), tree_of(s[i].1)),
    decreases s.len(),
{
    if s.len() > 0 {
        lemma_tree_pairs_of(s.drop_first());
    }
}

impl DeepView for Value {
    type V = Tree;

    open spec fn deep_view(&self) -> Tree {
        tree_of(*self)
    }
}

impl Value {
    /// The mathematical model of this value.
    pub open spec fn dv(self) -> Tree {
        tree_of(self)
    }

    /// Create an appropriate CBOR integer value (uint/nint).
    pub fn integer(n: i64) -> (r: Value)
        ensures
            r.dv() == Tree::of_int(n as int),
    {
        if n >= 0 {
            Value::Unsigned(n as u64)
        } else {
            Value::Negative(n as i128)
        }
    }

    /// Create a CBOR boolean simple value.
    pub fn bool_value(b: bool) -> (r: Value)
        ensures
            r.dv() == Tree::of_bool(b),
    {
        if b {
            Value::Simple(SimpleValue::TrueValue)
        } else {
            Value::Simple(SimpleValue::FalseValue)
        }
    }
}

impl Tree {
    /// The integer `i` as a tree: unsigned when non-negative, negative otherwise.
    pub open spec fn of_int(i: int) -> Tree {
        if i >= 0 {
            Tree::Unsigned(i as u64)
        } else {
            Tree::Negative(i as i128)
        }
    }

    /// The boolean `b` as a simple value.
    pub open spec fn of_bool(b: bool) -> Tree {
        if b {
            Tree::Simple(SimpleValue::TrueValue)
        } else {
            Tree::Simple(SimpleValue::FalseValue)
        }
    }

    /// The CBOR null value.
    pub open spec fn null() -> Tree {
        Tree::Simple(SimpleValue::NullValue)
    }

    /// Whether the tree is the null or undefined simple value.
    pub open spec fn is_null_or_undefined(self) -> bool {
        self == Tree::Simple(SimpleValue::NullValue) || self == Tree::Simple(
            SimpleValue::Undefined,
        )
    }
}

/// The CBOR major type of each tree shape; lower major types sort first.
pub open spec fn type_label(t: Tree) -> int {
    match t {
        Tree::Unsigned(_) => 0,
        Tree::Negative(_) => 1,
        Tree::Bytes(_) => 2,
        Tree::Text(_) => 3,
        Tree::Array(_) => 4,
        Tree::Mapping(_) => 5,
        Tree::Tag(_, _) => 6,
        Tree::Simple(_) => 7,
    }
}

/// The rank of a simple value in the canonical order.
pub open spec fn simple_label(s: SimpleValue) -> int {
    match s {
        SimpleValue::FalseValue => 20,
        SimpleValue::TrueValue => 21,
        SimpleValue::NullValue => 22,
        SimpleValue::Undefined => 23,
    }
}

/// Three-way comparison of two integers: -1, 0 or 1.
pub open spec fn cmp_int(a: int, b: int) -> int {
    if a < b {
        -1
    } else if a > b {
        1
    } else {
        0
    }
}

/// Lexicographic comparison of two byte sequences of equal length.
pub open spec fn lex_bytes(x: Seq<u8>, y: Seq<u8>) -> int
    decreases x,
{
    if x.len() == 0 || y.len() == 0 {
        0
    } else if x[0] != y[0] {
        cmp_int(x[0] as int, y[0] as int)
    } else {
        lex_bytes(x.drop_first(), y.drop_first())
    }
}

/// The canonical CBOR ordering on trees, as used for map keys: major type
/// first; integers numerically (negative ones from -1 downwards); strings
/// shortest first, then bytewise; arrays and maps shortest first, then
/// elementwise.  Returns -1, 0 or 1.
pub open spec fn tree_cmp(a: Tree, b: Tree) -> int
    decreases a,
{
    if type_label(a) != type_label(b) {
        cmp_int(type_label(a), type_label(b))
    } else {
        match (a, b) {
            (Tree::Unsigned(x), Tree::Unsigned(y)) => cmp_int(x as int, y as int),
            (Tree::Negative(x), Tree::Negative(y)) => cmp_int(y as int, x as int),
            (Tree::Bytes(x), Tree::Bytes(y)) => if x.len() != y.len() {
                cmp_int(x.len() as int, y.len() as int)
            } else {
                lex_bytes(x, y)
            },
            (Tree::Text(x), Tree::Text(y)) => if x.len() != y.len() {
                cmp_int(x.len() as int, y.len() as int)
            } else {
                lex_bytes(x, y)
            },
            (Tree::Array(x), Tree::Array(y)) => if x.len() != y.len() {
                cmp_int(x.len() as int, y.len() as int)
            } else {
                lex_trees(x, y)
            },
            (Tree::Mapping(x), Tree::Mapping(y)) => if x.len() != y.len() {
                cmp_int(x.len() as int, y.len() as int)
            } else {
                lex_pairs(x, y)
            },
            (Tree::Tag(tx, x), Tree::Tag(ty, y)) => if tx != ty {
                cmp_int(tx as int, ty as int)
            } else {
                tree_cmp(*x, *y)
            },
            (Tree::Simple(x), Tree::Simple(y)) => cmp_int(simple_label(x), simple_label(y)),
            _ => 0,
        }
    }
}

/// Lexicographic comparison of two tree sequences of equal length.
pub open spec fn lex_trees(x: Seq<Tree>, y: Seq<Tree>) -> int
    decreases x,
{
    if x.len() == 0 || y.len() == 0 {
        0
    } else if tree_cmp(x[0], y[0]) != 0 {
        tree_cmp(x[0], y[0])
    } else {
        lex_trees(x.drop_first(), y.drop_first())
    }
}

/// Lexicographic comparison of two pair sequences of equal length,
/// each pair by key first, then value.
pub open spec fn lex_pairs(x: Seq<(Tree, Tree)>, y: Seq<(Tree, Tree)>) -> int
    decreases x,
{
    if x.len() == 0 || y.len() == 0 {
        0
    } else if tree_cmp(x[0].0, y[0].0) != 0 {
        tree_cmp(x[0].0, y[0].0)
    } else if tree_cmp(x[0].1, y[0].1) != 0 {
        tree_cmp(x[0].1, y[0].1)
    } else {
        lex_pairs(x.drop_first(), y.drop_first())
    }
}

/// Strictly ascending keys under the canonical order, checked pairwise
/// on neighbours.
pub open spec fn pairs_sorted(s: Seq<(Tree, Tree)>) -> bool {
    forall|i: int| 0 <= i && i + 1 < s.len() ==> tree_cmp(#[trigger] s[i].0, s[i + 1].0) < 0
}

/// A canonically well-formed tree: negative integers within the CBOR range,
/// text strings valid UTF-8, string and container lengths expressible, and
/// every map strictly sorted by key.  The strict byte reader yields exactly
/// such trees, and the writer reproduces their canonical bytes unchanged.
pub open spec fn tree_wf(t: Tree) -> bool
    decreases t,
{
    match t {
        Tree::Unsigned(_) => true,
        Tree::Negative(n) => -0x1_0000_0000_0000_0000 <= n as int <= -1,
        Tree::Bytes(_) => true,
        Tree::Text(b) => valid_utf8(b),
        Tree::Array(s) => trees_wf(s),
        Tree::Mapping(s) => pairs_wf(s) && pairs_sorted(s),
        Tree::Tag(_, b) => tree_wf(*b),
        Tree::Simple(_) => true,
    }
}

pub open spec fn trees_wf(s: Seq<Tree>) -> bool
    decreases s,
{
    if s.len() == 0 {
        true
    } else {
        tree_wf(s[0]) && trees_wf(s.drop_first())
    }
}

pub open spec fn pairs_wf(s: Seq<(Tree, Tree)>) -> bool
    decreases s,
{
    if s.len() == 0 {
        true
    } else {
        tree_wf(s[0].0) && tree_wf(s[0].1) && pairs_wf(s.drop_first())
    }
}

/// The nesting depth of a tree: 1 for an atom, one more for each level of
/// array, map or tag.  The byte reader and writer bound this depth.
pub open spec fn nest(t: Tree) -> nat
    decreases t,
{
    match t {
        Tree::Array(s) => 1 + seq_nest(s),
        Tree::Mapping(s) => 1 + pairs_nest(s),
        Tree::Tag(_, b) => 1 + nest(*b),
        _ => 1,
    }
}

pub open spec fn seq_nest(s: Seq<Tree>) -> nat
    decreases s,
{
    if s.len() == 0 {
        0
    } else if nest(s[0]) >= seq_nest(s.drop_first()) {
        nest(s[0])
    } else {
        seq_nest(s.drop_first())
    }
}

pub open spec fn pairs_nest(s: Seq<(Tree, Tree)>) -> nat
    decreases s,
{
    if s.len() == 0 {
        0
    } else {
        let head = if nest(s[0].0) >= nest(s[0].1) {
            nest(s[0].0)
        } else {
            nest(s[0].1)
        };
        if head >= pairs_nest(s.drop_first()) {
            head
        } else {
            pairs_nest(s.drop_first())
        }
    }
}

/// The canonical order is reflexive: a tree compares equal to itself.
pub proof fn lemma_cmp_refl(a: Tree)
    ensures
        tree_cmp(a, a) == 0,
    decreases a,
{
    match a {
        Tree::Array(x) => lemma_lex_trees_refl(x),
        Tree::Mapping(x) => lemma_lex_pairs_refl(x),
        Tree::Tag(_, b) => lemma_cmp_refl(*b),
        _ => {
            if a is Bytes {
                lemma_lex_bytes_refl(a->Bytes_0);
            }
            if a is Text {
                lemma_lex_bytes_refl(a->Text_0);
            }
        },
    }
}

proof fn lemma_lex_bytes_refl(x: Seq<u8>)
    ensures
        lex_bytes(x, x) == 0,
    decreases x.len(),
{
    if x.len() > 0 {
        lemma_lex_bytes_refl(x.drop_first());
    }
}

proof fn lemma_lex_trees_refl(x: Seq<Tree>)
    ensures
        lex_trees(x, x) == 0,
    decreases x,
{
    if x.len() > 0 {
        lemma_cmp_refl(x[0]);
        lemma_lex_trees_refl(x.drop_first());
    }
}

proof fn lemma_lex_pairs_refl(x: Seq<(Tree, Tree)>)
    ensures
        lex_pairs(x, x) == 0,
    decreases x,
{
    if x.len() > 0 {
        lemma_cmp_refl(x[0].0);
        lemma_cmp_refl(x[0].1);
        lemma_lex_pairs_refl(x.drop_first());
    }
}

/// The canonical order is antisymmetric: swapping the arguments flips the sign.
pub proof fn lemma_cmp_antisym(a: Tree, b: Tree)
    ensures
        tree_cmp(a, b) == -tree_cmp(b, a),
    decreases a,
{
    match (a, b) {
        (Tree::Bytes(x), Tree::Bytes(y)) => lemma_lex_bytes_antisym(x, y),
        (Tree::Text(x), Tree::Text(y)) => lemma_lex_bytes_antisym(x, y),
        (Tree::Array(x), Tree::Array(y)) => lemma_lex_trees_antisym(x, y),
        (Tree::Mapping(x), Tree::Mapping(y)) => lemma_lex_pairs_antisym(x, y),
        (Tree::Tag(_, x), Tree::Tag(_, y)) => lemma_cmp_antisym(*x, *y),
        _ => {},
    }
}

proof fn lemma_lex_bytes_antisym(x: Seq<u8>, y: Seq<u8>)
    ensures
        lex_bytes(x, y) == -lex_bytes(y, x),
    decreases x.len(),
{
    if x.len() > 0 && y.len() > 0 {
        lemma_lex_bytes_antisym(x.drop_first(), y.drop_first());
    }
}

proof fn lemma_lex_trees_antisym(x: Seq<Tree>, y: Seq<Tree>)
    ensures
        lex_trees(x, y) == -lex_trees(y, x),
    decreases x,
{
    if x.len() > 0 && y.len() > 0 {
        lemma_cmp_antisym(x[0], y[0]);
        lemma_lex_trees_antisym(x.drop_first(), y.drop_first());
    }
}

proof fn lemma_lex_pairs_antisym(x: Seq<(Tree, Tree)>, y: Seq<(Tree, Tree)>)
    ensures
        lex_pairs(x, y) == -lex_pairs(y, x),
    decreases x,
{
    if x.len() > 0 && y.len() > 0 {
        lemma_cmp_antisym(x[0].0, y[0].0);
        lemma_cmp_antisym(x[0].1, y[0].1);
        lemma_lex_pairs_antisym(x.drop_first(), y.drop_first());
    }
}

/// Trees that compare equal under the canonical order are equal.
pub proof fn lemma_cmp_zero(a: Tree, b: Tree)
    requires
        tree_cmp(a, b) == 0,
    ensures
        a == b,
    decreases a,
{
    match (a, b) {
        (Tree::Bytes(x), Tree::Bytes(y)) => {
            lemma_lex_bytes_zero(x, y);
            assert(x =~= y);
        },
        (Tree::Text(x), Tree::Text(y)) => {
            lemma_lex_bytes_zero(x, y);
            assert(x =~= y);
        },
        (Tree::Array(x), Tree::Array(y)) => {
            lemma_lex_trees_zero(x, y);
            assert(x =~= y);
        },
        (Tree::Mapping(x), Tree::Mapping(y)) => {
            lemma_lex_pairs_zero(x, y);
            assert(x =~= y);
        },
        (Tree::Tag(_, x), Tree::Tag(_, y)) => {
            lemma_cmp_zero(*x, *y);
        },
        _ => {},
    }
}

proof fn lemma_lex_bytes_zero(x: Seq<u8>, y: Seq<u8>)
    requires
        x.len() == y.len(),
        lex_bytes(x, y) == 0,
    ensures
        forall|i: int| 0 <= i < x.len() ==> x[i] == y[i],
    decreases x.len(),
{
    if x.len() > 0 {
        lemma_lex_bytes_zero(x.drop_first(), y.drop_first());
        assert forall|i: int| 0 <= i < x.len() implies x[i] == y[i] by {
            if i > 0 {
                assert(x.drop_first()[i - 1] == y.drop_first()[i - 1]);
            }
        }
    }
}

proof fn lemma_lex_trees_zero(x: Seq<Tree>, y: Seq<Tree>)
    requires
        x.len() == y.len(),
        lex_trees(x, y) == 0,
    ensures
        forall|i: int| 0 <= i < x.len() ==> x[i] == y[i],
    decreases x,
{
    if x.len() > 0 {
        lemma_cmp_zero(x[0], y[0]);
        lemma_lex_trees_zero(x.drop_first(), y.drop_first());
        assert forall|i: int| 0 <= i < x.len() implies x[i] == y[i] by {
            if i > 0 {
                assert(x.drop_first()[i - 1] == y.drop_first()[i - 1]);
            }
        }
    }
}

proof fn lemma_lex_pairs_zero(x: Seq<(Tree, Tree)>, y: Seq<(Tree, Tree)>)
    requires
        x.len() == y.len(),
        lex_pairs(x, y) == 0,
    ensures
        forall|i: int| 0 <= i < x.len() ==> x[i] == y[i],
    decreases x,
{
    if x.len() > 0 {
        lemma_cmp_zero(x[0].0, y[0].0);
        lemma_cmp_zero(x[0].1, y[0].1);
        lemma_lex_pairs_zero(x.drop_first(), y.drop_first());
        assert forall|i: int| 0 <= i < x.len() implies x[i] == y[i] by {
            if i > 0 {
                assert(x.drop_first()[i - 1] == y.drop_first()[i - 1]);
            } else {
                assert(x[0].0 == y[0].0 && x[0].1 == y[0].1);
                assert(x[0] == y[0]);
            }
        }
    }
}

/// The canonical order is transitive (in its non-strict form).
pub proof fn lemma_cmp_trans(a: Tree, b: Tree, c: Tree)
    requires
        tree_cmp(a, b) <= 0,
        tree_cmp(b, c) <= 0,
    ensures
        tree_cmp(a, c) <= 0,
    decreases a,
{
    if type_label(a) == type_label(b) && type_label(b) == type_label(c) {
        match (a, b, c) {
            (Tree::Bytes(x), Tree::Bytes(y), Tree::Bytes(z)) => {
                if x.len() == y.len() && y.len() == z.len() {
                    lemma_lex_bytes_trans(x, y, z);
                }
            },
            (Tree::Text(x), Tree::Text(y), Tree::Text(z)) => {
                if x.len() == y.len() && y.len() == z.len() {
                    lemma_lex_bytes_trans(x, y, z);
                }
            },
            (Tree::Array(x), Tree::Array(y), Tree::Array(z)) => {
                if x.len() == y.len() && y.len() == z.len() {
                    lemma_lex_trees_trans(x, y, z);
                }
            },
            (Tree::Mapping(x), Tree::Mapping(y), Tree::Mapping(z)) => {
                if x.len() == y.len() && y.len() == z.len() {
                    lemma_lex_pairs_trans(x, y, z);
                }
            },
            (Tree::Tag(tx, x), Tree::Tag(ty, y), Tree::Tag(tz, z)) => {
                if tx == ty && ty == tz {
                    lemma_cmp_trans(*x, *y, *z);
                }
            },
            _ => {},
        }
    }
}

proof fn lemma_lex_bytes_trans(x: Seq<u8>, y: Seq<u8>, z: Seq<u8>)
    requires
        x.len() == y.len(),
        y.len() == z.len(),
        lex_bytes(x, y) <= 0,
        lex_bytes(y, z) <= 0,
    ensures
        lex_bytes(x, z) <= 0,
    decreases x.len(),
{
    if x.len() > 0 {
        if x[0] == y[0] && y[0] == z[0] {
            lemma_lex_bytes_trans(x.drop_first(), y.drop_first(), z.drop_first());
        }
    }
}

proof fn lemma_lex_trees_trans(x: Seq<Tree>, y: Seq<Tree>, z: Seq<Tree>)
    requires
        x.len() == y.len(),
        y.len() == z.len(),
        lex_trees(x, y) <= 0,
        lex_trees(y, z) <= 0,
    ensures
        lex_trees(x, z) <= 0,
    decreases x,
{
    if x.len() > 0 {
        let cxy = tree_cmp(x[0], y[0]);
        let cyz = tree_cmp(y[0], z[0]);
        if cxy == 0 && cyz == 0 {
            lemma_cmp_zero(x[0], y[0]);
            lemma_cmp_zero(y[0], z[0]);
            lemma_lex_trees_trans(x.drop_first(), y.drop_first(), z.drop_first());
        } else if cxy == 0 {
            lemma_cmp_zero(x[0], y[0]);
        } else if cyz == 0 {
            lemma_cmp_zero(y[0], z[0]);
        } else {
            lemma_cmp_trans(x[0], y[0], z[0]);
            if tree_cmp(x[0], z[0]) == 0 {
                lemma_cmp_zero(x[0], z[0]);
                lemma_cmp_antisym(x[0], y[0]);
            }
        }
    }
}

proof fn lemma_lex_pairs_trans(x: Seq<(Tree, Tree)>, y: Seq<(Tree, Tree)>, z: Seq<(Tree, Tree)>)
    requires
        x.len() == y.len(),
        y.len() == z.len(),
        lex_pairs(x, y) <= 0,
        lex_pairs(y, z) <= 0,
    ensures
        lex_pairs(x, z) <= 0,
    decreases x,
{
    if x.len() > 0 {
        lemma_pair_cmp_trans(x[0], y[0], z[0]);
        if pair_cmp(x[0], y[0]) == 0 && pair_cmp(y[0], z[0]) == 0 {
            lemma_lex_pairs_trans(x.drop_first(), y.drop_first(), z.drop_first());
        }
    }
}

/// Comparison of one map entry: key first, then value.
pub open spec fn pair_cmp(x: (Tree, Tree), y: (Tree, Tree)) -> int {
    if tree_cmp(x.0, y.0) != 0 {
        tree_cmp(x.0, y.0)
    } else {
        tree_cmp(x.1, y.1)
    }
}

proof fn lemma_pair_cmp_trans(x: (Tree, Tree), y: (Tree, Tree), z: (Tree, Tree))
    requires
        pair_cmp(x, y) <= 0,
        pair_cmp(y, z) <= 0,
    ensures
        pair_cmp(x, z) <= 0,
        pair_cmp(x, y) == 0 && pair_cmp(y, z) == 0 ==> pair_cmp(x, z) == 0,
        pair_cmp(x, y) < 0 || pair_cmp(y, z) < 0 ==> pair_cmp(x, z) < 0,
    decreases x,
{
    let kxy = tree_cmp(x.0, y.0);
    let kyz = tree_cmp(y.0, z.0);
    if kxy == 0 && kyz == 0 {
        lemma_cmp_zero(x.0, y.0);
        lemma_cmp_zero(y.0, z.0);
        lemma_cmp_refl(x.0);
        lemma_cmp_trans(x.1, y.1, z.1);
        if tree_cmp(x.1, y.1) == 0 && tree_cmp(y.1, z.1) == 0 {
            lemma_cmp_zero(x.1, y.1);
            lemma_cmp_zero(y.1, z.1);
            lemma_cmp_refl(x.1);
        }
        if tree_cmp(x.1, z.1) == 0 && (tree_cmp(x.1, y.1) < 0 || tree_cmp(y.1, z.1) < 0) {
            lemma_cmp_zero(x.1, z.1);
            lemma_cmp_antisym(x.1, y.1);
        }
    } else if kxy == 0 {
        lemma_cmp_zero(x.0, y.0);
    } else if kyz == 0 {
        lemma_cmp_zero(y.0, z.0);
    } else {
        lemma_cmp_trans(x.0, y.0, z.0);
        if tree_cmp(x.0, z.0) == 0 {
            lemma_cmp_zero(x.0, z.0);
            lemma_cmp_antisym(x.0, y.0);
        }
    }
}

/// Strict transitivity, derived from the non-strict form.
pub proof fn lemma_cmp_trans_strict(a: Tree, b: Tree, c: Tree)
    requires
        tree_cmp(a, b) < 0,
        tree_cmp(b, c) < 0,
    ensures
        tree_cmp(a, c) < 0,
{
    lemma_cmp_trans(a, b, c);
    if tree_cmp(a, c) == 0 {
        lemma_cmp_zero(a, c);
        lemma_cmp_antisym(a, b);
    }
}

impl Value {
    /// The CBOR major type of this value; lower major types sort first.
    pub fn type_label(&self) -> (r: u8)
        ensures
            r as int == type_label(self.dv()),
    {
        match self {
            Value::Unsigned(_) => 0,
            Value::Negative(_) => 1,
            Value::ByteString(_) => 2,
            Value::TextString(_) => 3,
            Value::Array(_) => 4,
            Value::Mapping(_) => 5,
            Value::Tag(_, _) => 6,
            Value::Simple(_) => 7,
        }
    }
}

/// Rank of a simple value in the canonical order.
fn simple_label_exec(s: SimpleValue) -> (r: u8)
    ensures
        r as int == simple_label(s),
{
    match s {
        SimpleValue::FalseValue => 20,
        SimpleValue::TrueValue => 21,
        SimpleValue::NullValue => 22,
        SimpleValue::Undefined => 23,
    }
}

/// Compare two byte strings canonically: shorter first, then bytewise.
pub fn bytes_cmp(x: &[u8], y: &[u8]) -> (r: i8)
    ensures
        r as int == (if x@.len() != y@.len() {
            cmp_int(x@.len() as int, y@.len() as int)
        } else {
            lex_bytes(x@, y@)
        }),
{
    if x.len() != y.len() {
        return if x.len() < y.len() {
            -1
        } else {
            1
        };
    }
    proof {
        assert(x@.skip(0) =~= x@);
        assert(y@.skip(0) =~= y@);
    }
    let mut i: usize = 0;
    while i < x.len()
        invariant
            x@.len() == y@.len(),
            i <= x@.len(),
            lex_bytes(x@, y@) == lex_bytes(x@.skip(i as int), y@.skip(i as int)),
        decreases x@.len() - i,
    {
        let xi = x[i];
        let yi = y[i];
        proof {
            assert(x@.skip(i as int)[0] == x@[i as int]);
            assert(y@.skip(i as int)[0] == y@[i as int]);
            assert(x@.skip(i as int).drop_first() =~= x@.skip(i as int + 1));
            assert(y@.skip(i as int).drop_first() =~= y@.skip(i as int + 1));
        }
        if xi < yi {
            return -1;
        } else if xi > yi {
            return 1;
        }
        i += 1;
    }
    proof {
        assert(x@.skip(i as int).len() == 0);
    }
    0
}

/// Compare two values under the canonical CBOR ordering, returning
/// -1, 0 or 1 as the first sorts before, with or after the second.
#[verifier::loop_isolation(false)]
pub fn value_cmp(a: &Value, b: &Value) -> (r: i8)
    ensures
        r as int == tree_cmp(a.dv(), b.dv()),
    decreases *a,
{
    let la = a.type_label();
    let lb = b.type_label();
    if la != lb {
        return if la < lb {
            -1
        } else {
            1
        };
    }
    match (a, b) {
        (Value::Unsigned(x), Value::Unsigned(y)) => {
            if x < y {
                -1
            } else if x > y {
                1
            } else {
                0
            }
        },
        (Value::Negative(x), Value::Negative(y)) => {
            if y < x {
                -1
            } else if y > x {
                1
            } else {
                0
            }
        },
        (Value::ByteString(x), Value::ByteString(y)) => bytes_cmp(x.as_slice(), y.as_slice()),
        (Value::TextString(x), Value::TextString(y)) => bytes_cmp(
            x.as_str().as_bytes(),
            y.as_str().as_bytes(),
        ),
        (Value::Array(x), Value::Array(y)) => {
            proof {
                lemma_trees_of(x@);
                lemma_trees_of(y@);
            }
            if x.len() != y.len() {
                return if x.len() < y.len() {
                    -1
                } else {
                    1
                };
            }
            let ghost tx = trees_of(x@);
            let ghost ty = trees_of(y@);
            proof {
                assert(tx.skip(0) =~= tx);
                assert(ty.skip(0) =~= ty);
            }
            let mut i: usize = 0;
            while i < x.len()
                invariant
                    x@.len() == y@.len(),
                    i <= x@.len(),
                    tx == trees_of(x@),
                    ty == trees_of(y@),
                    tx.len() == x@.len(),
                    ty.len() == y@.len(),
                    forall|k: int| 0 <= k < x@.len() ==> tx[k] == tree_of(x@[k]),
                    forall|k: int| 0 <= k < y@.len() ==> ty[k] == tree_of(y@[k]),
                    lex_trees(tx, ty) == lex_trees(tx.skip(i as int), ty.skip(i as int)),
                decreases x@.len() - i,
            {
                proof {
                    assert(x@ == (*a)->Array_0@);
                    assert(y@ == (*b)->Array_0@);
                    assert(decreases_to!(*a => (*a)->Array_0));
                    assert(decreases_to!((*a)->Array_0 => (*a)->Array_0@));
                    assert(decreases_to!((*a)->Array_0@ => (*a)->Array_0@[i as int]));
                    assert(decreases_to!(*a => x@[i as int]));
                }
                let c = value_cmp(&x[i], &y[i]);
                proof {
                    assert(tx.skip(i as int)[0] == tx[i as int]);
                    assert(ty.skip(i as int)[0] == ty[i as int]);
                    assert(tx.skip(i as int).drop_first() =~= tx.skip(i as int + 1));
                    assert(ty.skip(i as int).drop_first() =~= ty.skip(i as int + 1));
                }
                if c != 0 {
                    return c;
                }
                i += 1;
            }
            proof {
                assert(tx.skip(i as int).len() == 0);
            }
            0
        },
        (Value::Mapping(x), Value::Mapping(y)) => {
            proof {
                lemma_tree_pairs_of(x@);
                lemma_tree_pairs_of(y@);
            }
            if x.len() != y.len() {
                return if x.len() < y.len() {
                    -1
                } else {
                    1
                };
            }
            let ghost tx = tree_pairs_of(x@);
            let ghost ty = tree_pairs_of(y@);
            proof {
                assert(tx.skip(0) =~= tx);
                assert(ty.skip(0) =~= ty);
            }
            let mut i: usize = 0;
            while i < x.len()
                invariant
                    x@.len() == y@.len(),
                    i <= x@.len(),
                    tx == tree_pairs_of(x@),
                    ty == tree_pairs_of(y@),
                    tx.len() == x@.len(),
                    ty.len() == y@.len(),
                    forall|k: int|
                        0 <= k < x@.len() ==> tx[k] == (tree_of(x@[k].0), tree_of(x@[k].1)),
                    forall|k: int|
                        0 <= k < y@.len() ==> ty[k] == (tree_of(y@[k].0), tree_of(y@[k].1)),
                    lex_pairs(tx, ty) == lex_pairs(tx.skip(i as int), ty.skip(i as int)),
                decreases x@.len() - i,
            {
                proof {
                    assert(tx.skip(i as int)[0] == tx[i as int]);
                    assert(ty.skip(i as int)[0] == ty[i as int]);
                    assert(tx.skip(i as int).drop_first() =~= tx.skip(i as int + 1));
                    assert(ty.skip(i as int).drop_first() =~= ty.skip(i as int + 1));
                }
                proof {
                    assert(x@ == (*a)->Mapping_0@);
                    assert(decreases_to!(*a => (*a)->Mapping_0));
                    assert(decreases_to!((*a)->Mapping_0 => (*a)->Mapping_0@));
                    assert(decreases_to!((*a)->Mapping_0@ => (*a)->Mapping_0@[i as int]));
                    assert(decreases_to!((*a)->Mapping_0@[i as int] => (*a)->Mapping_0@[i as int].0));
                    assert(decreases_to!((*a)->Mapping_0@[i as int] => (*a)->Mapping_0@[i as int].1));
                    assert(decreases_to!(*a => x@[i as int].0));
                    assert(decreases_to!(*a => x@[i as int].1));
                }
                let ck = value_cmp(&x[i].0, &y[i].0);
                if ck != 0 {
                    return ck;
                }
                let cv = value_cmp(&x[i].1, &y[i].1);
                if cv != 0 {
                    return cv;
                }
                i += 1;
            }
            proof {
                assert(tx.skip(i as int).len() == 0);
            }
            0
        },
        (Value::Tag(tx, bx), Value::Tag(ty, by)) => {
            if tx != ty {
                if tx < ty {
                    -1
                } else {
                    1
                }
            } else {
                value_cmp(&**bx, &**by)
            }
        },
        (Value::Simple(x), Value::Simple(y)) => {
            let lx = simple_label_exec(*x);
            let ly = simple_label_exec(*y);
            if lx < ly {
                -1
            } else if lx > ly {
                1
            } else {
                0
            }
        },
        _ => {
            proof {
                assert(false);
            }
            -1
        },
    }
}

impl PartialEq for Value {
    /// Structural equality, decided through the canonical comparison.
    fn eq(&self, other: &Value) -> (r: bool) {
        let c = value_cmp(self, other);
        proof {
            if tree_cmp(self.dv(), other.dv()) == 0 {
                lemma_cmp_zero(self.dv(), other.dv());
            }
            if self.dv() == other.dv() {
                lemma_cmp_refl(self.dv());
            }
        }
        c == 0
    }
}

impl vstd::std_specs::cmp::PartialEqSpecImpl for Value {
    open spec fn obeys_eq_spec() -> bool {
        true
    }

    open spec fn eq_spec(&self, other: &Value) -> bool {
        tree_of(*self) == tree_of(*other)
    }
}

} // verus!


