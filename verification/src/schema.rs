//! The canonical type lattice and the schema model.
//!
//! `DataType` is the closed vocabulary every inferer converges on, and
//! `DataType::merge` is the sole mechanism for reconciling two type
//! observations: total, commutative, and never failing.

use vstd::prelude::*;

use crate::text::{
    lemma_lex_le_antisym, lemma_lex_le_refl, lemma_lex_le_total, lemma_lex_le_trans, lex_le,
    lex_lt, str_le,
};

verus! {

/// Canonical type vocabulary. `Unknown` means "observed but not
/// representable/reconcilable"; `List` carries exactly one element-type
/// summary, never per-index types.
#[derive(Debug, PartialEq, Eq)]
pub enum DataType {
    Null,
    Bool,
    Int,
    Float,
    String,
    Bytes,
    Timestamp,
    Date,
    Struct,
    List(Box<DataType>),
    Unknown,
}

/// The join of two type observations, in priority order: equal types keep
/// the type; `Null` is the identity; `Unknown` absorbs; `Int` and `Float`
/// widen to `Float`; lists merge element-wise; two structs match opaquely;
/// a string widens any scalar; every remaining pairing is `Unknown`.
pub open spec fn spec_merge(left: DataType, right: DataType) -> DataType
    decreases left,
{
    if left == right {
        left
    } else if left is Null {
        right
    } else if right is Null {
        left
    } else if left is Unknown || right is Unknown {
        DataType::Unknown
    } else {
        match (left, right) {
            (DataType::Int, DataType::Float) => DataType::Float,
            (DataType::Float, DataType::Int) => DataType::Float,
            (DataType::List(a), DataType::List(b)) => DataType::List(
                Box::new(spec_merge(*a, *b)),
            ),
            (DataType::Bool, DataType::String) => DataType::String,
            (DataType::String, DataType::Bool) => DataType::String,
            (DataType::Int, DataType::String) => DataType::String,
            (DataType::String, DataType::Int) => DataType::String,
            (DataType::Float, DataType::String) => DataType::String,
            (DataType::String, DataType::Float) => DataType::String,
            (DataType::Bool, DataType::Int) => DataType::String,
            (DataType::Int, DataType::Bool) => DataType::String,
            (DataType::Bool, DataType::Float) => DataType::String,
            (DataType::Float, DataType::Bool) => DataType::String,
            _ => DataType::Unknown,
        }
    }
}

impl DataType {
    /// A deep copy; `clone` through the derived impl tells Verus nothing.
    pub fn dup(&self) -> (r: DataType)
        ensures
            r == *self,
        decreases *self,
    {
        match self {
            DataType::Null => DataType::Null,
            DataType::Bool => DataType::Bool,
            DataType::Int => DataType::Int,
            DataType::Float => DataType::Float,
            DataType::String => DataType::String,
            DataType::Bytes => DataType::Bytes,
            DataType::Timestamp => DataType::Timestamp,
            DataType::Date => DataType::Date,
            DataType::Struct => DataType::Struct,
            DataType::List(inner) => DataType::List(Box::new(inner.dup())),
            DataType::Unknown => DataType::Unknown,
        }
    }

    /// Structural equality; the derived `PartialEq` is opaque to Verus.
    pub fn same(&self, other: &DataType) -> (r: bool)
        ensures
            r == (*self == *other),
        decreases *self,
    {
        match (self, other) {
            (DataType::Null, DataType::Null) => true,
            (DataType::Bool, DataType::Bool) => true,
            (DataType::Int, DataType::Int) => true,
            (DataType::Float, DataType::Float) => true,
            (DataType::String, DataType::String) => true,
            (DataType::Bytes, DataType::Bytes) => true,
            (DataType::Timestamp, DataType::Timestamp) => true,
            (DataType::Date, DataType::Date) => true,
            (DataType::Struct, DataType::Struct) => true,
            (DataType::List(a), DataType::List(b)) => a.same(b),
            (DataType::Unknown, DataType::Unknown) => true,
            _ => false,
        }
    }

    /// Reconcile two type observations. Total: defined for every pair,
    /// and a conflict degrades precision instead of raising an error.
    pub fn merge(left: &DataType, right: &DataType) -> (r: DataType)
        ensures
            r == spec_merge(*left, *right),
        decreases *left,
    {
        if left.same(right) {
            return left.dup();
        }
        match (left, right) {
            (DataType::Null, _) => right.dup(),
            (_, DataType::Null) => left.dup(),
            (DataType::Unknown, _) => DataType::Unknown,
            (_, DataType::Unknown) => DataType::Unknown,
            (DataType::Int, DataType::Float) => DataType::Float,
            (DataType::Float, DataType::Int) => DataType::Float,
            (DataType::List(a), DataType::List(b)) => DataType::List(
                Box::new(DataType::merge(a, b)),
            ),
            (DataType::Bool, DataType::String) => DataType::String,
            (DataType::String, DataType::Bool) => DataType::String,
            (DataType::Int, DataType::String) => DataType::String,
            (DataType::String, DataType::Int) => DataType::String,
            (DataType::Float, DataType::String) => DataType::String,
            (DataType::String, DataType::Float) => DataType::String,
            (DataType::Bool, DataType::Int) => DataType::String,
            (DataType::Int, DataType::Bool) => DataType::String,
            (DataType::Bool, DataType::Float) => DataType::String,
            (DataType::Float, DataType::Bool) => DataType::String,
            _ => DataType::Unknown,
        }
    }
}

/// `merge` is commutative: the join does not depend on the order in which
/// two observations arrive.
pub proof fn lemma_merge_commutative(a: DataType, b: DataType)
    ensures
        spec_merge(a, b) == spec_merge(b, a),
    decreases a,
{
    if a != b && !(a is Null) && !(b is Null) && !(a is Unknown) && !(b is Unknown) {
        if a is List && b is List {
            lemma_merge_commutative(*a->0, *b->0);
        }
    }
}

/// `Null` is the identity of `merge`: it never changes the other operand.
pub proof fn lemma_merge_null_identity(x: DataType)
    ensures
        spec_merge(DataType::Null, x) == x,
        spec_merge(x, DataType::Null) == x,
{
}

/// `Unknown` absorbs under `merge`: once a field is unrepresentable it
/// stays so.
pub proof fn lemma_merge_unknown_absorbs(x: DataType)
    ensures
        spec_merge(DataType::Unknown, x) == DataType::Unknown,
        spec_merge(x, DataType::Unknown) == DataType::Unknown,
{
}

/// One inferred or declared field: a flat name, its type, and whether a
/// null/absent observation was made for it.
#[derive(Debug, PartialEq, Eq)]
pub struct Field {
    pub name: String,
    pub dtype: DataType,
    pub nullable: bool,
}

/// The mathematical shape of a field: its name as a character sequence,
/// its type, and its nullability.
pub struct FieldModel {
    pub name: Seq<char>,
    pub dtype: DataType,
    pub nullable: bool,
}

impl View for Field {
    type V = FieldModel;

    open spec fn view(&self) -> FieldModel {
        (FieldModel { name: self.name@, dtype: self.dtype, nullable: self.nullable })
    }
}

/// The immutable output value all inferers converge on: an ordered
/// sequence of fields.
#[derive(Debug, PartialEq, Eq)]
pub struct Schema {
    pub fields: Vec<Field>,
}

impl View for Schema {
    type V = Seq<FieldModel>;

    open spec fn view(&self) -> Seq<FieldModel> {
        self.fields@.map_values(|f: Field| f@)
    }
}

/// Field names appear in non-decreasing lexicographic order.
pub open spec fn sorted_by_name(fields: Seq<FieldModel>) -> bool {
    forall|i: int, j: int|
        0 <= i < j < fields.len() ==> lex_le(#[trigger] fields[i].name, #[trigger] fields[j].name)
}

/// The predicate selecting fields of one name.
pub open spec fn named_pred(k: Seq<char>) -> spec_fn(Field) -> bool {
    |f: Field| f.name@ == k
}

/// The fields carrying a given name, in their original order.
pub open spec fn fields_named(fields: Seq<Field>, k: Seq<char>) -> Seq<Field> {
    fields.filter(named_pred(k))
}

impl Schema {
    /// Reorder the fields by name, lexicographically; the collection of
    /// fields is unchanged, and the sort is stable: fields sharing a
    /// name keep their relative order.
    pub fn sort_by_name(&mut self)
        ensures
            final(self).fields@.to_multiset() == old(self).fields@.to_multiset(),
            sorted_by_name(final(self)@),
            forall|k: Seq<char>| #[trigger] fields_named(final(self).fields@, k) == fields_named(
                old(self).fields@,
                k,
            ),
    {
        let ghost orig = self.fields@;
        if self.fields.len() <= 1 {
            return;
        }
        let mut i: usize = 1;
        while i < self.fields.len()
            invariant
                1 <= i <= self.fields@.len(),
                self.fields@.to_multiset() == orig.to_multiset(),
                self.fields@.len() == orig.len(),
                fields_sorted(self.fields@.take(i as int)),
                forall|k: Seq<char>| #[trigger] fields_named(self.fields@, k) == fields_named(
                    orig,
                    k,
                ),
            decreases self.fields@.len() - i,
        {
            let ghost s = self.fields@;
            let mut pos: usize = 0;
            while pos < i && str_le(self.fields[pos].name.as_str(), self.fields[i].name.as_str())
                invariant
                    0 <= pos <= i < self.fields@.len(),
                    self.fields@ == s,
                    forall|p: int| 0 <= p < pos ==> lex_le(s[p].name@, s[i as int].name@),
                decreases i - pos,
            {
                pos = pos + 1;
            }
            proof {
                if pos < i {
                    lemma_lex_le_total(s[pos as int].name@, s[i as int].name@);
                    if s[pos as int].name@ == s[i as int].name@ {
                        lemma_lex_le_refl(s[pos as int].name@);
                    }
                }
            }
            let f = self.fields.remove(i);
            self.fields.insert(pos, f);
            proof {
                lemma_sorted_insert(s, self.fields@, pos as int, i as int);
            }
            i = i + 1;
        }
        proof {
            assert(self.fields@.take(self.fields@.len() as int) =~= self.fields@);
            assert forall|a: int, b: int| 0 <= a < b < self@.len() implies lex_le(
                #[trigger] self@[a].name,
                #[trigger] self@[b].name,
            ) by {
                assert(lex_le(self.fields@[a].name@, self.fields@[b].name@));
                assert(self@[a] == self.fields@[a]@);
                assert(self@[b] == self.fields@[b]@);
            }
        }
    }
}

/// Field names appear in non-decreasing lexicographic order.
pub open spec fn fields_sorted(fields: Seq<Field>) -> bool {
    forall|i: int, j: int|
        0 <= i < j < fields.len() ==> lex_le(
            #[trigger] fields[i].name@,
            #[trigger] fields[j].name@,
        )
}

/// After moving the element at `i` to position `pos` within a prefix
/// sorted up to `i`, the prefix through `i` is sorted, the collection of
/// fields is unchanged, and fields of any one name keep their relative
/// order: the move crosses strictly greater names only.
proof fn lemma_sorted_insert(s: Seq<Field>, t: Seq<Field>, pos: int, i: int)
    requires
        0 <= pos <= i < s.len(),
        t == s.remove(i).insert(pos, s[i]),
        fields_sorted(s.take(i)),
        forall|p: int| 0 <= p < pos ==> lex_le(s[p].name@, s[i].name@),
        pos < i ==> lex_lt(s[i].name@, s[pos].name@),
    ensures
        t.len() == s.len(),
        fields_sorted(t.take(i + 1)),
        t.to_multiset() == s.to_multiset(),
        forall|k: Seq<char>| #[trigger] fields_named(t, k) == fields_named(s, k),
{
    let a = s.take(pos);
    let b = s.subrange(pos, i);
    let x = s[i];
    let d = s.skip(i + 1);
    assert(s =~= a + b + seq![x] + d);
    assert(t =~= a + seq![x] + b + d);
    assert forall|p: int| 0 <= p < b.len() implies (#[trigger] b[p]).name@ != x.name@ by {
        assert(b[p] == s[pos + p]);
        if p > 0 {
            assert(s.take(i)[pos] == s[pos]);
            assert(s.take(i)[pos + p] == s[pos + p]);
            if s[pos + p].name@ == x.name@ {
                lemma_lex_le_antisym(x.name@, s[pos].name@);
            }
        }
    }
    assert forall|k: Seq<char>| #[trigger] fields_named(t, k) == fields_named(s, k) by {
        lemma_filter_swap_mid(a, b, x, d, k);
        assert(fields_named(s, k) == (a + b + seq![x] + d).filter(named_pred(k)));
        assert(fields_named(t, k) == (a + seq![x] + b + d).filter(named_pred(k)));
    }
    assert forall|a: int, b: int| 0 <= a < b <= i implies lex_le(
        #[trigger] t[a].name@,
        #[trigger] t[b].name@,
    ) by {
        assert(t[a] == (if a < pos {
            s[a]
        } else if a == pos {
            s[i]
        } else {
            s[a - 1]
        }));
        assert(t[b] == (if b < pos {
            s[b]
        } else if b == pos {
            s[i]
        } else {
            s[b - 1]
        }));
        assert(s.take(i).len() == i);
        assert(forall|k: int| 0 <= k < i ==> s.take(i)[k] == s[k]);
        if a == pos && b > pos {
            if pos < i {
                if b - 1 > pos {
                    lemma_lex_le_trans(s[i].name@, s[pos].name@, s[b - 1].name@);
                }
            }
        }
    }
    assert(fields_sorted(t.take(i + 1))) by {
        assert(forall|k: int| 0 <= k < i + 1 ==> t.take(i + 1)[k] == t[k]);
    }
    broadcast use vstd::seq_lib::group_to_multiset_ensures;
    broadcast use vstd::seq_lib::to_multiset_insert;

    assert(s.remove(i).to_multiset() == s.to_multiset().remove(s[i]));
    assert(t.to_multiset() == s.to_multiset().remove(s[i]).insert(s[i]));
    assert(s.to_multiset().count(s[i]) > 0) by {
        assert(s.contains(s[i]));
    }
    assert(t.to_multiset() =~= s.to_multiset());
}

/// A sequence with no field of the filtered kind filters to nothing.
proof fn lemma_filter_none(s: Seq<Field>, pred: spec_fn(Field) -> bool)
    requires
        forall|p: int| 0 <= p < s.len() ==> !pred(#[trigger] s[p]),
    ensures
        s.filter(pred) == Seq::<Field>::empty(),
    decreases s.len(),
{
    reveal(Seq::filter);
    if s.len() > 0 {
        assert(s.last() == s[s.len() - 1]);
        assert forall|p: int| 0 <= p < s.drop_last().len() implies !pred(
            #[trigger] s.drop_last()[p],
        ) by {
            assert(s.drop_last()[p] == s[p]);
        }
        lemma_filter_none(s.drop_last(), pred);
    } else {
        assert(s.filter(pred) =~= Seq::<Field>::empty());
    }
}

/// Moving one field left across fields of other names does not change
/// which fields carry any one name, nor their order.
proof fn lemma_filter_swap_mid(a: Seq<Field>, b: Seq<Field>, x: Field, d: Seq<Field>, k: Seq<char>)
    requires
        forall|p: int| 0 <= p < b.len() ==> (#[trigger] b[p]).name@ != x.name@,
    ensures
        (a + b + seq![x] + d).filter(named_pred(k)) == (a + seq![x] + b + d).filter(named_pred(k)),
{
    broadcast use vstd::seq_lib::group_seq_lib_default;

    let pred = named_pred(k);
    let fa = a.filter(pred);
    let fb = b.filter(pred);
    let fx = seq![x].filter(pred);
    let fd = d.filter(pred);
    assert((a + b + seq![x] + d).filter(pred) == fa + fb + fx + fd);
    assert((a + seq![x] + b + d).filter(pred) == fa + fx + fb + fd);
    if x.name@ == k {
        assert(forall|p: int| 0 <= p < b.len() ==> !pred(#[trigger] b[p]));
        lemma_filter_none(b, pred);
        assert(fa + fb + fx + fd =~= fa + fx + fb + fd);
    } else {
        assert(seq![x][0] == x);
        assert(!pred(x));
        lemma_filter_none(seq![x], pred);
        assert(fa + fb + fx + fd =~= fa + fx + fb + fd);
    }
}

} // verus!
