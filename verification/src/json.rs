//! JSON schema inference: recursive, path-flattening structural sampling.
//! Up to `SAMPLE_LIMIT` top-level values are visited; nested object keys
//! flatten into dot-joined paths; arrays fold up to `ARRAY_SAMPLE_LIMIT`
//! element types into one `List` summary; recursion past `MAX_DEPTH`
//! truncates to an `Unknown` field at the truncation path.

use vstd::prelude::*;

use crate::schema::{DataType, spec_merge};
use crate::text::{lemma_lex_le_antisym, lemma_lex_le_trans, lex_lt, str_eq, str_lt};

verus! {

broadcast use {vstd::std_specs::vec::axiom_vec_decreases_to_view, vstd::seq::axiom_seq_index_decreases};

/// The most top-level samples one inference call visits.
pub const SAMPLE_LIMIT: usize = 1000;

/// The most elements of one array value folded into its element-type
/// summary.
pub const ARRAY_SAMPLE_LIMIT: usize = 1000;

/// The deepest nesting level visited; a subtree first exceeding it is
/// folded as one `Unknown` field at the truncation path.
pub const MAX_DEPTH: usize = 8;

/// One key of a JSON object with its value.
pub struct JsonEntry {
    pub key: String,
    pub value: JsonValue,
}

/// The shape of one parsed JSON value, as the inference reads it: the
/// kind of each scalar (a number is `Int` when it is integral-
/// representable, else `Float`), and the full structure of arrays and
/// objects.
pub enum JsonValue {
    Null,
    Bool,
    Int,
    Float,
    Text,
    Array(Vec<JsonValue>),
    Object(Vec<JsonEntry>),
}

/// The flat field name of a path: the path itself, or `value` for the
/// empty path of a bare top-level scalar.
pub open spec fn field_name_spec(path: Seq<char>) -> Seq<char> {
    if path.len() == 0 {
        seq!['v', 'a', 'l', 'u', 'e']
    } else {
        path
    }
}

/// A child path: the parent path and the key, dot-joined.
pub open spec fn join_path_spec(parent: Seq<char>, child: Seq<char>) -> Seq<char> {
    if parent.len() == 0 {
        child
    } else {
        parent + seq!['.'] + child
    }
}

/// The running accumulator of one inference call: flattened path to
/// running type and nullability, with the set of paths seen in the
/// current sample.
pub struct AccState {
    pub acc: Map<Seq<char>, (DataType, bool)>,
    pub present: Set<Seq<char>>,
}

/// One accumulator update: the path is marked present; a known path
/// merges the observation into its running pair; a new path enters with
/// the observed type, nullable when observed nullable or first seen
/// after the very first sample.
pub open spec fn acc_update(
    st: AccState,
    samples: int,
    name: Seq<char>,
    dtype: DataType,
    nullable: bool,
) -> AccState {
    let present = st.present.insert(name);
    if st.acc.dom().contains(name) {
        let prev = st.acc[name];
        (AccState {
            acc: st.acc.insert(name, (spec_merge(prev.0, dtype), prev.1 || nullable)),
            present,
        })
    } else {
        (AccState { acc: st.acc.insert(name, (dtype, nullable || samples > 0)), present })
    }
}

/// The type summary of one value: scalars map to their kinds, an array
/// to a `List` of its folded element summary, an object to `Struct`, and
/// anything past the depth cap to `Unknown`.
pub open spec fn value_dtype_spec(v: JsonValue, depth: int, max_depth: int, alimit: int) -> DataType
    decreases v, 0int,
{
    if depth > max_depth {
        DataType::Unknown
    } else {
        match v {
            JsonValue::Null => DataType::Null,
            JsonValue::Bool => DataType::Bool,
            JsonValue::Int => DataType::Int,
            JsonValue::Float => DataType::Float,
            JsonValue::Text => DataType::String,
            JsonValue::Array(items) => {
                let n = if items@.len() <= alimit {
                    items@.len() as int
                } else {
                    alimit
                };
                DataType::List(Box::new(elems_dtype_spec(items@, n, depth + 1, max_depth, alimit)))
            },
            JsonValue::Object(_) => DataType::Struct,
        }
    }
}

/// The merge of the type summaries of the first `n` elements, starting
/// from `Null`.
pub open spec fn elems_dtype_spec(
    items: Seq<JsonValue>,
    n: int,
    depth: int,
    max_depth: int,
    alimit: int,
) -> DataType
    decreases items, n,
{
    if n <= 0 || n > items.len() {
        DataType::Null
    } else {
        spec_merge(
            elems_dtype_spec(items, n - 1, depth, max_depth, alimit),
            value_dtype_spec(items[n - 1], depth, max_depth, alimit),
        )
    }
}

/// The element-type summary of an array is determined solely by its
/// sampled prefix: two arrays agreeing on their first `n` elements fold
/// to the same summary over those `n` elements, so elements beyond the
/// sampling cap cannot alter the inferred type.
pub proof fn lemma_array_sample_bound(
    a: Seq<JsonValue>,
    b: Seq<JsonValue>,
    n: int,
    depth: int,
    max_depth: int,
    alimit: int,
)
    requires
        0 <= n <= a.len(),
        n <= b.len(),
        a.subrange(0, n) == b.subrange(0, n),
    ensures
        elems_dtype_spec(a, n, depth, max_depth, alimit) == elems_dtype_spec(
            b,
            n,
            depth,
            max_depth,
            alimit,
        ),
    decreases n,
{
    if n > 0 {
        assert(a.subrange(0, n - 1) =~= a.subrange(0, n).subrange(0, n - 1));
        assert(b.subrange(0, n - 1) =~= b.subrange(0, n).subrange(0, n - 1));
        lemma_array_sample_bound(a, b, n - 1, depth, max_depth, alimit);
        assert(a[n - 1] == a.subrange(0, n)[n - 1]);
        assert(b[n - 1] == b.subrange(0, n)[n - 1]);
    }
}

/// The nested-path exposure of an array's object elements is likewise
/// determined solely by the sampled prefix: visiting two arrays that
/// agree on their first `alimit` elements folds the accumulator
/// identically, so together with `lemma_array_sample_bound` nothing an
/// array holds at or beyond the sampling cap can alter the inference.
pub proof fn lemma_visit_array_sample_bound(
    st: AccState,
    a: Seq<JsonValue>,
    b: Seq<JsonValue>,
    i: int,
    path: Seq<char>,
    depth: int,
    samples: int,
    max_depth: int,
    alimit: int,
)
    requires
        0 <= i,
        alimit <= a.len(),
        alimit <= b.len(),
        forall|j: int| 0 <= j < alimit ==> a[j] == b[j],
    ensures
        visit_array_spec(st, a, i, path, depth, samples, max_depth, alimit) == visit_array_spec(
            st,
            b,
            i,
            path,
            depth,
            samples,
            max_depth,
            alimit,
        ),
    decreases alimit - i,
{
    if i < alimit {
        assert(a[i] == b[i]);
        let st1 = match a[i] {
            JsonValue::Object(entries) => visit_entries_spec(
                st,
                entries@,
                0,
                path,
                depth,
                samples,
                max_depth,
                alimit,
            ),
            _ => st,
        };
        lemma_visit_array_sample_bound(
            st1,
            a,
            b,
            i + 1,
            path,
            depth,
            samples,
            max_depth,
            alimit,
        );
    }
}

/// An array value holding at least `alimit` elements is folded from its
/// first `alimit` elements alone: its type summary and its whole
/// contribution to the accumulator — the `List` element merge and the
/// nested paths of its object elements — are identical for any two such
/// arrays agreeing on that prefix, so elements at or beyond the sampling
/// cap never alter the inferred type.
pub proof fn lemma_array_value_sample_bound(
    st: AccState,
    v1: JsonValue,
    v2: JsonValue,
    path: Seq<char>,
    depth: int,
    samples: int,
    max_depth: int,
    alimit: int,
)
    requires
        0 <= alimit,
        v1 is Array,
        v2 is Array,
        v1->Array_0@.len() >= alimit,
        v2->Array_0@.len() >= alimit,
        v1->Array_0@.subrange(0, alimit) == v2->Array_0@.subrange(0, alimit),
    ensures
        value_dtype_spec(v1, depth, max_depth, alimit) == value_dtype_spec(
            v2,
            depth,
            max_depth,
            alimit,
        ),
        visit_value_spec(st, v1, path, depth, samples, max_depth, alimit) == visit_value_spec(
            st,
            v2,
            path,
            depth,
            samples,
            max_depth,
            alimit,
        ),
{
    let a = v1->Array_0@;
    let b = v2->Array_0@;
    assert forall|j: int| 0 <= j < alimit implies a[j] == b[j] by {
        assert(a[j] == a.subrange(0, alimit)[j]);
        assert(b[j] == b.subrange(0, alimit)[j]);
    }
    lemma_array_sample_bound(a, b, alimit, depth + 1, max_depth, alimit);
    lemma_visit_array_sample_bound(st, a, b, 0, path, depth, samples, max_depth, alimit);
}

/// Visit one value at a path: past the depth cap a non-empty path folds
/// to `Unknown`; scalars update their field; an array updates the
/// object keys of its sampled elements and then its own `List` field; an
/// object within depth visits each key at the joined path.
pub open spec fn visit_value_spec(
    st: AccState,
    v: JsonValue,
    path: Seq<char>,
    depth: int,
    samples: int,
    max_depth: int,
    alimit: int,
) -> AccState
    decreases v, 0int,
{
    if depth > max_depth {
        if path.len() > 0 {
            acc_update(st, samples, path, DataType::Unknown, true)
        } else {
            st
        }
    } else {
        match v {
            JsonValue::Null => acc_update(
                st,
                samples,
                field_name_spec(path),
                DataType::Null,
                true,
            ),
            JsonValue::Bool => acc_update(
                st,
                samples,
                field_name_spec(path),
                DataType::Bool,
                false,
            ),
            JsonValue::Int => acc_update(st, samples, field_name_spec(path), DataType::Int, false),
            JsonValue::Float => acc_update(
                st,
                samples,
                field_name_spec(path),
                DataType::Float,
                false,
            ),
            JsonValue::Text => acc_update(
                st,
                samples,
                field_name_spec(path),
                DataType::String,
                false,
            ),
            JsonValue::Array(items) => {
                let n = if items@.len() <= alimit {
                    items@.len() as int
                } else {
                    alimit
                };
                let elem = elems_dtype_spec(items@, n, depth + 1, max_depth, alimit);
                let st1 = visit_array_spec(st, items@, 0, path, depth, samples, max_depth, alimit);
                acc_update(
                    st1,
                    samples,
                    field_name_spec(path),
                    DataType::List(Box::new(elem)),
                    false,
                )
            },
            JsonValue::Object(entries) => {
                if depth >= max_depth {
                    if path.len() > 0 {
                        acc_update(st, samples, path, DataType::Unknown, true)
                    } else {
                        st
                    }
                } else {
                    visit_entries_spec(st, entries@, 0, path, depth, samples, max_depth, alimit)
                }
            },
        }
    }
}

/// Visit the keys of an object, in order, each at the joined path one
/// level deeper.
pub open spec fn visit_entries_spec(
    st: AccState,
    entries: Seq<JsonEntry>,
    i: int,
    path: Seq<char>,
    depth: int,
    samples: int,
    max_depth: int,
    alimit: int,
) -> AccState
    decreases entries, entries.len() - i,
{
    if i < 0 || i >= entries.len() {
        st
    } else {
        let st1 = visit_value_spec(
            st,
            entries[i].value,
            join_path_spec(path, entries[i].key@),
            depth + 1,
            samples,
            max_depth,
            alimit,
        );
        visit_entries_spec(st1, entries, i + 1, path, depth, samples, max_depth, alimit)
    }
}

/// Visit the sampled elements of an array: an object element exposes its
/// keys as independent flattened paths rooted at the array's own path.
pub open spec fn visit_array_spec(
    st: AccState,
    items: Seq<JsonValue>,
    i: int,
    path: Seq<char>,
    depth: int,
    samples: int,
    max_depth: int,
    alimit: int,
) -> AccState
    decreases items, items.len() - i,
{
    if i < 0 || i >= items.len() || i >= alimit {
        st
    } else {
        let st1 = match items[i] {
            JsonValue::Object(entries) => visit_entries_spec(
                st,
                entries@,
                0,
                path,
                depth,
                samples,
                max_depth,
                alimit,
            ),
            _ => st,
        };
        visit_array_spec(st1, items, i + 1, path, depth, samples, max_depth, alimit)
    }
}

/// After one sample, every known path not seen in it becomes nullable:
/// absence implies optionality.
pub open spec fn mark_absent(st: AccState) -> Map<Seq<char>, (DataType, bool)> {
    Map::new(
        |k: Seq<char>| st.acc.dom().contains(k),
        |k: Seq<char>|
            if st.present.contains(k) {
                st.acc[k]
            } else {
                (st.acc[k].0, true)
            },
    )
}

/// Process one top-level sample: visit it from the empty path with
/// nothing yet seen, then mark the absent paths nullable.
pub open spec fn process_record_spec(
    acc: Map<Seq<char>, (DataType, bool)>,
    v: JsonValue,
    samples: int,
    max_depth: int,
    alimit: int,
) -> Map<Seq<char>, (DataType, bool)> {
    mark_absent(
        visit_value_spec(
            (AccState { acc, present: Set::empty() }),
            v,
            Seq::empty(),
            0,
            samples,
            max_depth,
            alimit,
        ),
    )
}

/// One running accumulator entry: a flattened path with its running
/// type, nullability, and whether the current sample touched it.
pub struct FieldSlot {
    pub name: String,
    pub dtype: DataType,
    pub nullable: bool,
    pub seen: bool,
}

/// The mapping a slot sequence holds: each name to its running pair;
/// with unique names, the entry of each slot.
pub open spec fn slots_map(slots: Seq<FieldSlot>) -> Map<Seq<char>, (DataType, bool)>
    decreases slots.len(),
{
    if slots.len() == 0 {
        Map::empty()
    } else {
        slots_map(slots.drop_last()).insert(
            slots.last().name@,
            (slots.last().dtype, slots.last().nullable),
        )
    }
}

/// The set of names whose slot is marked seen.
pub open spec fn seen_set(slots: Seq<FieldSlot>) -> Set<Seq<char>>
    decreases slots.len(),
{
    if slots.len() == 0 {
        Set::empty()
    } else if slots.last().seen {
        seen_set(slots.drop_last()).insert(slots.last().name@)
    } else {
        seen_set(slots.drop_last()).remove(slots.last().name@)
    }
}

/// Slot names are strictly sorted, hence unique.
pub open spec fn slots_sorted(slots: Seq<FieldSlot>) -> bool {
    forall|i: int, j: int|
        0 <= i < j < slots.len() ==> lex_lt(#[trigger] slots[i].name@, #[trigger] slots[j].name@)
}

proof fn lemma_slots_found(slots: Seq<FieldSlot>, i: int)
    requires
        0 <= i < slots.len(),
        forall|a: int, b: int|
            0 <= a < b < slots.len() ==> #[trigger] slots[a].name@ != #[trigger] slots[b].name@,
    ensures
        slots_map(slots).dom().contains(slots[i].name@),
        slots_map(slots)[slots[i].name@] == (slots[i].dtype, slots[i].nullable),
        seen_set(slots).contains(slots[i].name@) == slots[i].seen,
    decreases slots.len(),
{
    if i == slots.len() - 1 {
        if !slots.last().seen {
            lemma_slots_absent_seen(slots.drop_last(), slots.last().name@);
        }
    } else {
        lemma_slots_found(slots.drop_last(), i);
        assert(slots.drop_last()[i] == slots[i]);
        assert(slots[i].name@ != slots.last().name@);
    }
}

proof fn lemma_slots_absent_seen(slots: Seq<FieldSlot>, k: Seq<char>)
    requires
        forall|j: int| 0 <= j < slots.len() ==> #[trigger] slots[j].name@ != k,
    ensures
        !slots_map(slots).dom().contains(k),
        !seen_set(slots).contains(k),
    decreases slots.len(),
{
    if slots.len() > 0 {
        lemma_slots_absent_seen(slots.drop_last(), k);
        assert(slots.last() == slots[slots.len() - 1]);
    }
}

proof fn lemma_slots_update(slots: Seq<FieldSlot>, i: int, slot: FieldSlot)
    requires
        0 <= i < slots.len(),
        forall|a: int, b: int|
            0 <= a < b < slots.len() ==> #[trigger] slots[a].name@ != #[trigger] slots[b].name@,
        slot.name@ == slots[i].name@,
        slot.seen,
    ensures
        slots_map(slots.update(i, slot)) == slots_map(slots).insert(
            slot.name@,
            (slot.dtype, slot.nullable),
        ),
        seen_set(slots.update(i, slot)) == seen_set(slots).insert(slot.name@),
    decreases slots.len(),
{
    let t = slots.update(i, slot);
    if i == slots.len() - 1 {
        assert(t.drop_last() =~= slots.drop_last());
        assert(t.last() == slot);
        assert(slots_map(t) =~= slots_map(slots).insert(slot.name@, (slot.dtype, slot.nullable)));
        if slots.last().seen {
            assert(seen_set(t) =~= seen_set(slots).insert(slot.name@));
        } else {
            lemma_slots_absent_seen(slots.drop_last(), slot.name@);
            assert(seen_set(t) =~= seen_set(slots).insert(slot.name@));
        }
    } else {
        lemma_slots_update(slots.drop_last(), i, slot);
        assert(t.drop_last() =~= slots.drop_last().update(i, slot));
        assert(t.last() == slots.last());
        assert(slots[i].name@ != slots.last().name@) by {
            assert(slots.last() == slots[slots.len() - 1]);
        }
        assert(slots_map(t) =~= slots_map(slots).insert(slot.name@, (slot.dtype, slot.nullable)));
        assert(seen_set(t) =~= seen_set(slots).insert(slot.name@));
    }
}

proof fn lemma_slots_insert(slots: Seq<FieldSlot>, pos: int, slot: FieldSlot)
    requires
        0 <= pos <= slots.len(),
        forall|j: int| 0 <= j < slots.len() ==> #[trigger] slots[j].name@ != slot.name@,
        slot.seen,
    ensures
        slots_map(slots.insert(pos, slot)) == slots_map(slots).insert(
            slot.name@,
            (slot.dtype, slot.nullable),
        ),
        seen_set(slots.insert(pos, slot)) == seen_set(slots).insert(slot.name@),
    decreases slots.len(),
{
    let t = slots.insert(pos, slot);
    if pos == slots.len() {
        assert(t.drop_last() =~= slots);
        assert(t.last() == slot);
    } else {
        lemma_slots_insert(slots.drop_last(), pos, slot);
        assert(t.drop_last() =~= slots.drop_last().insert(pos, slot));
        assert(t.last() == slots.last());
        assert(slots.last() == slots[slots.len() - 1]);
        assert(slots_map(t) =~= slots_map(slots).insert(slot.name@, (slot.dtype, slot.nullable)));
        assert(seen_set(t) =~= seen_set(slots).insert(slot.name@));
    }
}

/// The accumulator after the first `n` samples.
pub open spec fn process_records_spec(
    values: Seq<JsonValue>,
    n: int,
    max_depth: int,
    alimit: int,
) -> Map<Seq<char>, (DataType, bool)>
    decreases n,
{
    if n <= 0 {
        Map::empty()
    } else {
        process_record_spec(
            process_records_spec(values, n - 1, max_depth, alimit),
            values[n - 1],
            n - 1,
            max_depth,
            alimit,
        )
    }
}

/// The mutable accumulator owned by one inference call: the running
/// slots, sorted by path, and how many samples have been folded in.
pub struct InferState {
    pub slots: Vec<FieldSlot>,
    pub samples: usize,
}

impl InferState {
    /// The slots stay strictly sorted by name.
    pub open spec fn wf(&self) -> bool {
        slots_sorted(self.slots@)
    }

    /// The abstract accumulator this state holds.
    pub open spec fn st(&self) -> AccState {
        (AccState { acc: slots_map(self.slots@), present: seen_set(self.slots@) })
    }

    /// An empty accumulator.
    pub fn new() -> (r: Self)
        ensures
            r.wf(),
            r.st() == (AccState {
                acc: Map::<Seq<char>, (DataType, bool)>::empty(),
                present: Set::<Seq<char>>::empty(),
            }),
            r.samples == 0,
    {
        InferState { slots: Vec::new(), samples: 0 }
    }

    /// Fold one observation of `name` into the accumulator.
    pub fn update_field(&mut self, name: &str, dtype: DataType, nullable: bool)
        requires
            old(self).wf(),
        ensures
            final(self).wf(),
            final(self).samples == old(self).samples,
            final(self).st() == acc_update(
                old(self).st(),
                old(self).samples as int,
                name@,
                dtype,
                nullable,
            ),
    {
        let ghost s = self.slots@;
        proof {
            lemma_sorted_names_unique(s);
        }
        let mut i: usize = 0;
        while i < self.slots.len() && str_lt(self.slots[i].name.as_str(), name)
            invariant
                0 <= i <= self.slots@.len(),
                self.slots@ == s,
                forall|j: int| 0 <= j < i ==> lex_lt(#[trigger] s[j].name@, name@),
            decreases self.slots@.len() - i,
        {
            i = i + 1;
        }
        if i < self.slots.len() && str_eq(self.slots[i].name.as_str(), name) {
            let merged = DataType::merge(&self.slots[i].dtype, &dtype);
            let nul = self.slots[i].nullable || nullable;
            let slot = FieldSlot { name: self.slots[i].name.clone(), dtype: merged, nullable: nul, seen: true };
            proof {
                lemma_slots_found(s, i as int);
                lemma_slots_update(s, i as int, slot);
            }
            self.slots.set(i, slot);
            proof {
                assert forall|a: int, b: int|
                    0 <= a < b < self.slots@.len() implies lex_lt(
                    #[trigger] self.slots@[a].name@,
                    #[trigger] self.slots@[b].name@,
                ) by {
                    assert(self.slots@[a].name@ == s[a].name@);
                    assert(self.slots@[b].name@ == s[b].name@);
                }
            }
        } else {
            proof {
                assert forall|j: int| 0 <= j < s.len() implies #[trigger] s[j].name@ != name@ by {
                    if j >= i {
                        lemma_name_gt(s, i as int, j, name@);
                    }
                }
            }
            let nul = nullable || self.samples > 0;
            let slot = FieldSlot { name: name.to_owned(), dtype, nullable: nul, seen: true };
            proof {
                lemma_slots_absent_seen(s, name@);
                lemma_slots_insert(s, i as int, slot);
            }
            self.slots.insert(i, slot);
            proof {
                let t = self.slots@;
                assert forall|a: int, b: int| 0 <= a < b < t.len() implies lex_lt(
                    #[trigger] t[a].name@,
                    #[trigger] t[b].name@,
                ) by {
                    let na = if a < i {
                        s[a].name@
                    } else if a == i {
                        name@
                    } else {
                        s[a - 1].name@
                    };
                    assert(t[a].name@ == na);
                    let nb = if b < i {
                        s[b].name@
                    } else if b == i {
                        name@
                    } else {
                        s[b - 1].name@
                    };
                    assert(t[b].name@ == nb);
                    if a < i && b == i {
                    } else if a == i && b > i {
                        lemma_name_gt(s, i as int, b - 1, name@);
                    } else if a < i && b > i {
                    }
                }
            }
        }
    }
}

/// The flat field name of a path.
pub fn field_name(path: &str) -> (r: String)
    ensures
        r@ == field_name_spec(path@),
{
    if path.is_empty() {
        proof {
            reveal_strlit("value");
            assert("value"@ =~= seq!['v', 'a', 'l', 'u', 'e']);
        }
        String::from_str("value")
    } else {
        path.to_owned()
    }
}

/// Join a parent path and a key with a dot.
pub fn join_path(parent: &str, child: &str) -> (r: String)
    ensures
        r@ == join_path_spec(parent@, child@),
{
    if parent.is_empty() {
        child.to_owned()
    } else {
        proof {
            reveal_strlit(".");
            assert("."@ =~= seq!['.']);
        }
        let mut s = parent.to_owned();
        s.append(".");
        s.append(child);
        s
    }
}

impl InferState {
    /// The type summary of one value, without touching the accumulator.
    #[verifier::loop_isolation(false)]
    pub fn value_dtype(
        value: &JsonValue,
        depth: usize,
        max_depth: usize,
        array_limit: usize,
    ) -> (r: DataType)
        requires
            max_depth < usize::MAX,
        ensures
            r == value_dtype_spec(
                *value,
                depth as int,
                max_depth as int,
                array_limit as int,
            ),
        decreases *value,
    {
        if depth > max_depth {
            return DataType::Unknown;
        }
        match value {
            JsonValue::Null => DataType::Null,
            JsonValue::Bool => DataType::Bool,
            JsonValue::Int => DataType::Int,
            JsonValue::Float => DataType::Float,
            JsonValue::Text => DataType::String,
            JsonValue::Array(items) => {
                let n = items.len();
                let cap: usize = if n <= array_limit {
                    n
                } else {
                    array_limit
                };
                let mut elem = DataType::Null;
                let mut j: usize = 0;
                while j < cap
                    invariant
                        0 <= j <= cap,
                        cap <= items@.len(),
                        cap as int == (if items@.len() <= array_limit as int {
                            items@.len() as int
                        } else {
                            array_limit as int
                        }),
                        depth <= max_depth,
                        max_depth < usize::MAX,
                        elem == elems_dtype_spec(
                            items@,
                            j as int,
                            depth + 1,
                            max_depth as int,
                            array_limit as int,
                        ),
                    decreases cap - j,
                {
                    let d = Self::value_dtype(&items[j], depth + 1, max_depth, array_limit);
                    let merged = DataType::merge(&elem, &d);
                    elem = merged;
                    j = j + 1;
                }
                DataType::List(Box::new(elem))
            },
            JsonValue::Object(_) => DataType::Struct,
        }
    }

    /// Visit one value at a path, folding everything it exposes into the
    /// accumulator.
    #[verifier::loop_isolation(false)]
    pub fn infer_value(
        &mut self,
        value: &JsonValue,
        path: &str,
        depth: usize,
        max_depth: usize,
        array_limit: usize,
    )
        requires
            old(self).wf(),
            max_depth < usize::MAX,
        ensures
            final(self).wf(),
            final(self).samples == old(self).samples,
            final(self).st() == visit_value_spec(
                old(self).st(),
                *value,
                path@,
                depth as int,
                old(self).samples as int,
                max_depth as int,
                array_limit as int,
            ),
        decreases *value,
    {
        if depth > max_depth {
            if !path.is_empty() {
                self.update_field(path, DataType::Unknown, true);
            }
            return ;
        }
        match value {
            JsonValue::Null => {
                let nm = field_name(path);
                self.update_field(nm.as_str(), DataType::Null, true);
            },
            JsonValue::Bool => {
                let nm = field_name(path);
                self.update_field(nm.as_str(), DataType::Bool, false);
            },
            JsonValue::Int => {
                let nm = field_name(path);
                self.update_field(nm.as_str(), DataType::Int, false);
            },
            JsonValue::Float => {
                let nm = field_name(path);
                self.update_field(nm.as_str(), DataType::Float, false);
            },
            JsonValue::Text => {
                let nm = field_name(path);
                self.update_field(nm.as_str(), DataType::String, false);
            },
            JsonValue::Array(items) => {
                let ghost st0 = self.st();
                let ghost ss = self.samples;
                let n = items.len();
                let cap: usize = if n <= array_limit {
                    n
                } else {
                    array_limit
                };
                let mut elem = DataType::Null;
                let mut j: usize = 0;
                while j < cap
                    invariant
                        0 <= j <= cap,
                        cap <= items@.len(),
                        cap as int == (if items@.len() <= array_limit as int {
                            items@.len() as int
                        } else {
                            array_limit as int
                        }),
                        depth <= max_depth,
                        max_depth < usize::MAX,
                        self.wf(),
                        self.samples == ss,
                        elem == elems_dtype_spec(
                            items@,
                            j as int,
                            depth + 1,
                            max_depth as int,
                            array_limit as int,
                        ),
                        visit_array_spec(
                            st0,
                            items@,
                            0,
                            path@,
                            depth as int,
                            ss as int,
                            max_depth as int,
                            array_limit as int,
                        ) == visit_array_spec(
                            self.st(),
                            items@,
                            j as int,
                            path@,
                            depth as int,
                            ss as int,
                            max_depth as int,
                            array_limit as int,
                        ),
                    decreases cap - j,
                {
                    let d = Self::value_dtype(&items[j], depth + 1, max_depth, array_limit);
                    let merged = DataType::merge(&elem, &d);
                    elem = merged;
                    let ghost st_j = self.st();
                    match &items[j] {
                        JsonValue::Object(entries) => {
                            let mut e: usize = 0;
                            while e < entries.len()
                                invariant
                                    0 <= e <= entries@.len(),
                                    depth <= max_depth,
                                    max_depth < usize::MAX,
                                    self.wf(),
                                    self.samples == ss,
                                    visit_entries_spec(
                                        st_j,
                                        entries@,
                                        0,
                                        path@,
                                        depth as int,
                                        ss as int,
                                        max_depth as int,
                                        array_limit as int,
                                    ) == visit_entries_spec(
                                        self.st(),
                                        entries@,
                                        e as int,
                                        path@,
                                        depth as int,
                                        ss as int,
                                        max_depth as int,
                                        array_limit as int,
                                    ),
                                decreases entries@.len() - e,
                            {
                                let child_path = join_path(path, entries[e].key.as_str());
                                self.infer_value(
                                    &entries[e].value,
                                    child_path.as_str(),
                                    depth + 1,
                                    max_depth,
                                    array_limit,
                                );
                                e = e + 1;
                            }
                        },
                        _ => {},
                    }
                    proof {
                        let ji = j as int;
                        assert(visit_array_spec(
                            st_j,
                            items@,
                            ji,
                            path@,
                            depth as int,
                            ss as int,
                            max_depth as int,
                            array_limit as int,
                        ) == visit_array_spec(
                            self.st(),
                            items@,
                            ji + 1,
                            path@,
                            depth as int,
                            ss as int,
                            max_depth as int,
                            array_limit as int,
                        ));
                    }
                    j = j + 1;
                }
                let nm = field_name(path);
                self.update_field(nm.as_str(), DataType::List(Box::new(elem)), false);
            },
            JsonValue::Object(entries) => {
                if depth >= max_depth {
                    if !path.is_empty() {
                        self.update_field(path, DataType::Unknown, true);
                    }
                } else {
                    let ghost st0 = self.st();
                    let ghost ss = self.samples;
                    let mut e: usize = 0;
                    while e < entries.len()
                        invariant
                            0 <= e <= entries@.len(),
                            depth < max_depth,
                            max_depth < usize::MAX,
                            self.wf(),
                            self.samples == ss,
                            visit_entries_spec(
                                st0,
                                entries@,
                                0,
                                path@,
                                depth as int,
                                ss as int,
                                max_depth as int,
                                array_limit as int,
                            ) == visit_entries_spec(
                                self.st(),
                                entries@,
                                e as int,
                                path@,
                                depth as int,
                                ss as int,
                                max_depth as int,
                                array_limit as int,
                            ),
                        decreases entries@.len() - e,
                    {
                        let child_path = join_path(path, entries[e].key.as_str());
                        self.infer_value(
                            &entries[e].value,
                            child_path.as_str(),
                            depth + 1,
                            max_depth,
                            array_limit,
                        );
                        e = e + 1;
                    }
                }
            },
        }
    }
}

/// A slot after one sample is folded in: an untouched slot becomes
/// nullable, a seen one is unchanged.
pub open spec fn mark_one(s: FieldSlot) -> FieldSlot {
    (FieldSlot { name: s.name, dtype: s.dtype, nullable: s.nullable || !s.seen, seen: s.seen })
}

proof fn lemma_slots_reset(orig: Seq<FieldSlot>, t: Seq<FieldSlot>)
    requires
        t.len() == orig.len(),
        forall|i: int|
            0 <= i < t.len() ==> (#[trigger] t[i]).name == orig[i].name && t[i].dtype
                == orig[i].dtype && t[i].nullable == orig[i].nullable && !t[i].seen,
    ensures
        slots_map(t) == slots_map(orig),
        seen_set(t) == Set::<Seq<char>>::empty(),
    decreases t.len(),
{
    if t.len() > 0 {
        assert(t.drop_last().len() == orig.drop_last().len());
        assert forall|i: int|
            0 <= i < t.drop_last().len() implies (#[trigger] t.drop_last()[i]).name
            == orig.drop_last()[i].name && t.drop_last()[i].dtype == orig.drop_last()[i].dtype
            && t.drop_last()[i].nullable == orig.drop_last()[i].nullable
            && !t.drop_last()[i].seen by {
            assert(t.drop_last()[i] == t[i]);
            assert(orig.drop_last()[i] == orig[i]);
        }
        lemma_slots_reset(orig.drop_last(), t.drop_last());
        assert(t.last() == t[t.len() - 1]);
        assert(orig.last() == orig[t.len() - 1]);
        assert(slots_map(t) =~= slots_map(orig));
        assert(seen_set(t) =~= Set::<Seq<char>>::empty());
    } else {
        assert(slots_map(t) =~= slots_map(orig));
        assert(seen_set(t) =~= Set::<Seq<char>>::empty());
    }
}

proof fn lemma_slots_mark(orig: Seq<FieldSlot>, t: Seq<FieldSlot>)
    requires
        t.len() == orig.len(),
        forall|i: int| 0 <= i < t.len() ==> #[trigger] t[i] == mark_one(orig[i]),
    ensures
        slots_map(t) == mark_absent(
            (AccState { acc: slots_map(orig), present: seen_set(orig) }),
        ),
    decreases t.len(),
{
    if t.len() == 0 {
        assert(slots_map(t) =~= mark_absent(
            (AccState { acc: slots_map(orig), present: seen_set(orig) }),
        ));
    } else {
        assert forall|i: int| 0 <= i < t.drop_last().len() implies #[trigger] t.drop_last()[i]
            == mark_one(orig.drop_last()[i]) by {
            assert(t.drop_last()[i] == t[i]);
            assert(orig.drop_last()[i] == orig[i]);
        }
        lemma_slots_mark(orig.drop_last(), t.drop_last());
        assert(t.last() == t[t.len() - 1]);
        assert(orig.last() == orig[t.len() - 1]);
        assert(t.last() == mark_one(orig.last()));
        assert(slots_map(t) =~= mark_absent(
            (AccState { acc: slots_map(orig), present: seen_set(orig) }),
        ));
    }
}

impl InferState {
    /// Fold one top-level sample into the accumulator: visit it from the
    /// empty path, then mark every untouched path nullable.
    pub fn process_record(&mut self, value: &JsonValue, max_depth: usize, array_limit: usize)
        requires
            old(self).wf(),
            max_depth < usize::MAX,
            old(self).samples < usize::MAX,
        ensures
            final(self).wf(),
            final(self).samples == old(self).samples + 1,
            slots_map(final(self).slots@) == process_record_spec(
                slots_map(old(self).slots@),
                *value,
                old(self).samples as int,
                max_depth as int,
                array_limit as int,
            ),
    {
        let ghost s0 = self.slots@;
        let ghost ss = self.samples;
        let mut k: usize = 0;
        while k < self.slots.len()
            invariant
                0 <= k <= self.slots@.len(),
                self.slots@.len() == s0.len(),
                self.samples == ss,
                forall|i: int|
                    0 <= i < k ==> (#[trigger] self.slots@[i]).name == s0[i].name
                        && self.slots@[i].dtype == s0[i].dtype && self.slots@[i].nullable
                        == s0[i].nullable && !self.slots@[i].seen,
                forall|i: int| k <= i < s0.len() ==> self.slots@[i] == s0[i],
            decreases self.slots@.len() - k,
        {
            let slot = FieldSlot {
                name: self.slots[k].name.clone(),
                dtype: self.slots[k].dtype.dup(),
                nullable: self.slots[k].nullable,
                seen: false,
            };
            self.slots.set(k, slot);
            k = k + 1;
        }
        proof {
            lemma_slots_reset(s0, self.slots@);
            assert forall|a: int, b: int| 0 <= a < b < self.slots@.len() implies lex_lt(
                #[trigger] self.slots@[a].name@,
                #[trigger] self.slots@[b].name@,
            ) by {
                assert(self.slots@[a].name == s0[a].name);
                assert(self.slots@[b].name == s0[b].name);
            }
            reveal_strlit("");
            assert(""@ =~= Seq::<char>::empty());
        }
        self.infer_value(value, "", 0, max_depth, array_limit);
        let ghost s1 = self.slots@;
        let mut m: usize = 0;
        while m < self.slots.len()
            invariant
                0 <= m <= self.slots@.len(),
                self.slots@.len() == s1.len(),
                self.samples == ss,
                forall|i: int| 0 <= i < m ==> #[trigger] self.slots@[i] == mark_one(s1[i]),
                forall|i: int| m <= i < s1.len() ==> self.slots@[i] == s1[i],
            decreases self.slots@.len() - m,
        {
            if !self.slots[m].seen {
                let slot = FieldSlot {
                    name: self.slots[m].name.clone(),
                    dtype: self.slots[m].dtype.dup(),
                    nullable: true,
                    seen: false,
                };
                self.slots.set(m, slot);
            }
            m = m + 1;
        }
        proof {
            lemma_slots_mark(s1, self.slots@);
            assert forall|a: int, b: int| 0 <= a < b < self.slots@.len() implies lex_lt(
                #[trigger] self.slots@[a].name@,
                #[trigger] self.slots@[b].name@,
            ) by {
                assert(self.slots@[a].name == s1[a].name);
                assert(self.slots@[b].name == s1[b].name);
            }
        }
        self.samples = self.samples + 1;
    }

    /// Hand the accumulator over as schema fields, in slot (path) order.
    pub fn finish(self) -> (r: crate::schema::Schema)
        ensures
            r@ == slots_to_fields(self.slots@),
    {
        let mut fields: Vec<crate::schema::Field> = Vec::new();
        let mut i: usize = 0;
        let n = self.slots.len();
        while i < n
            invariant
                0 <= i <= n,
                n == self.slots@.len(),
                fields@.len() == i,
                forall|k: int|
                    0 <= k < i ==> #[trigger] fields@[k]@ == slots_to_fields(self.slots@)[k],
            decreases n - i,
        {
            let f = crate::schema::Field {
                name: self.slots[i].name.clone(),
                dtype: self.slots[i].dtype.dup(),
                nullable: self.slots[i].nullable,
            };
            fields.push(f);
            i = i + 1;
        }
        let r = crate::schema::Schema { fields };
        proof {
            assert(r@ =~= slots_to_fields(self.slots@));
        }
        r
    }
}

/// The fields a slot sequence denotes, in order.
pub open spec fn slots_to_fields(slots: Seq<FieldSlot>) -> Seq<crate::schema::FieldModel> {
    Seq::new(
        slots.len(),
        |i: int|
            (crate::schema::FieldModel {
                name: slots[i].name@,
                dtype: slots[i].dtype,
                nullable: slots[i].nullable,
            }),
    )
}

/// Strictly sorted names are pairwise distinct.
proof fn lemma_sorted_names_unique(slots: Seq<FieldSlot>)
    requires
        slots_sorted(slots),
    ensures
        forall|a: int, b: int|
            0 <= a < b < slots.len() ==> #[trigger] slots[a].name@ != #[trigger] slots[b].name@,
{
}

/// The schema fields are exactly the accumulator, sorted strictly by
/// path: each field carries its path's running pair, and every
/// accumulated path appears.
pub open spec fn schema_matches_acc(
    fields: Seq<crate::schema::FieldModel>,
    acc: Map<Seq<char>, (DataType, bool)>,
) -> bool {
    &&& forall|i: int, j: int|
        0 <= i < j < fields.len() ==> lex_lt(
            #[trigger] fields[i].name,
            #[trigger] fields[j].name,
        )
    &&& forall|i: int|
        0 <= i < fields.len() ==> acc.dom().contains(#[trigger] fields[i].name)
            && acc[fields[i].name] == (fields[i].dtype, fields[i].nullable)
    &&& forall|k: Seq<char>|
        acc.dom().contains(k) ==> exists|i: int|
            0 <= i < fields.len() && (#[trigger] fields[i]).name == k
}

/// Infer a schema from already-parsed top-level samples: fold at most
/// `sample_limit` of them through the accumulator and hand the fields
/// out sorted by path.
pub fn infer_from_values(
    values: &Vec<JsonValue>,
    sample_limit: usize,
    max_depth: usize,
    array_limit: usize,
) -> (r: crate::schema::Schema)
    requires
        max_depth < usize::MAX,
    ensures
        schema_matches_acc(
            r@,
            process_records_spec(
                values@,
                (if values@.len() <= sample_limit as int {
                    values@.len() as int
                } else {
                    sample_limit as int
                }),
                max_depth as int,
                array_limit as int,
            ),
        ),
{
    let mut state = InferState::new();
    let n = values.len();
    let cap: usize = if n <= sample_limit {
        n
    } else {
        sample_limit
    };
    let mut i: usize = 0;
    proof {
        assert(slots_map(state.slots@) =~= process_records_spec(
            values@,
            0,
            max_depth as int,
            array_limit as int,
        ));
    }
    while i < cap
        invariant
            0 <= i <= cap,
            cap <= values@.len(),
            cap as int == (if values@.len() <= sample_limit as int {
                values@.len() as int
            } else {
                sample_limit as int
            }),
            max_depth < usize::MAX,
            state.wf(),
            state.samples == i,
            slots_map(state.slots@) == process_records_spec(
                values@,
                i as int,
                max_depth as int,
                array_limit as int,
            ),
        decreases cap - i,
    {
        state.process_record(&values[i], max_depth, array_limit);
        i = i + 1;
    }
    let ghost slots = state.slots@;
    let ghost acc = slots_map(slots);
    let r = state.finish();
    proof {
        lemma_sorted_names_unique(slots);
        assert forall|ix: int|
            0 <= ix < r@.len() implies acc.dom().contains(#[trigger] r@[ix].name)
            && acc[r@[ix].name] == (r@[ix].dtype, r@[ix].nullable) by {
            lemma_slots_found(slots, ix);
        }
        assert forall|k: Seq<char>| acc.dom().contains(k) implies exists|ix: int|
            0 <= ix < r@.len() && (#[trigger] r@[ix]).name == k by {
            if !(exists|ix: int| 0 <= ix < slots.len() && (#[trigger] slots[ix]).name@ == k) {
                lemma_slots_absent_seen(slots, k);
            }
            let w = choose|ix: int| 0 <= ix < slots.len() && (#[trigger] slots[ix]).name@ == k;
            assert(r@[w].name == k);
        }
    }
    r
}

/// Every name at or past the scan stop strictly follows the probe name.
proof fn lemma_name_gt(s: Seq<FieldSlot>, i: int, j: int, name: Seq<char>)
    requires
        0 <= i <= j < s.len(),
        slots_sorted(s),
        !lex_lt(s[i].name@, name),
        s[i].name@ != name,
    ensures
        lex_lt(name, s[j].name@),
{
    crate::text::lemma_lex_le_total(s[i].name@, name);
    if j > i {
        assert(lex_lt(s[i].name@, s[j].name@));
        if name == s[j].name@ {
            lemma_lex_le_antisym(name, s[i].name@);
        } else {
            lemma_lex_le_trans(name, s[i].name@, s[j].name@);
        }
    }
}

#[verifier::external_type_specification]
#[verifier::external_body]
pub struct ExSerdeValue(serde_json::Value);

/// Relies on serde_json::Value: one arm per variant, with an object's
/// keys in sorted order, as serde_json's map iterates them; a number is
/// integral exactly when serde_json holds it as `i64` or `u64`.
#[verifier::external_body]
fn value_shape(v: &serde_json::Value) -> JsonValue {
    match v {
        serde_json::Value::Null => JsonValue::Null,
        serde_json::Value::Bool(_) => JsonValue::Bool,
        serde_json::Value::Number(n) => if n.is_i64() || n.is_u64() { JsonValue::Int } else { JsonValue::Float },
        serde_json::Value::String(_) => JsonValue::Text,
        serde_json::Value::Array(items) => JsonValue::Array(items.iter().map(value_shape).collect()),
        serde_json::Value::Object(map) => JsonValue::Object(
            map.iter().map(|(k, c)| JsonEntry { key: k.clone(), value: value_shape(c) }).collect(),
        ),
    }
}

/// The shapes of the first `limit` top-level values serde_json parses
/// out of `data`, in order — or nothing, when one of those values does
/// not parse. serde_json parses deterministically and iterates objects
/// in sorted key order, so the outcome depends on the bytes and the
/// limit alone.
pub uninterp spec fn json_values_of(data: Seq<u8>, limit: int) -> Option<Seq<JsonValue>>;

/// Relies on serde_json::Deserializer::from_slice and its
/// StreamDeserializer: successive top-level values of a concatenated
/// stream, each converted to its shape; `take` stops after `limit`, and
/// the first parse failure fails the read with the parser's description.
#[verifier::external_body]
fn parse_values(data: &[u8], limit: usize) -> (r: Result<Vec<JsonValue>, String>)
    ensures
        (r is Ok) == (json_values_of(data@, limit as int) is Some),
        r is Ok ==> Some((r->Ok_0)@) == json_values_of(data@, limit as int),
        r is Ok ==> (r->Ok_0)@.len() <= limit,
{
    let mut out: Vec<JsonValue> = Vec::new();
    let iter = serde_json::Deserializer::from_slice(data).into_iter::<serde_json::Value>();
    for item in iter.take(limit) {
        match item {
            Ok(v) => out.push(value_shape(&v)),
            Err(e) => return Err(e.to_string()),
        }
    }
    Ok(out)
}

/// Whether the sampled prefix of the byte source parses: one value when
/// it opens a top-level array, else up to `SAMPLE_LIMIT` successive
/// values.
pub open spec fn stream_parse_ok(data: Seq<u8>) -> bool {
    if crate::util::first_non_ws(data) == Some(91u8) {
        json_values_of(data, 1) is Some
    } else {
        json_values_of(data, SAMPLE_LIMIT as int) is Some
    }
}

/// The top-level samples of a parsed byte source: the elements of a
/// single top-level array, or the successive values of a concatenated
/// stream.
pub open spec fn stream_samples(data: Seq<u8>) -> Seq<JsonValue> {
    if crate::util::first_non_ws(data) == Some(91u8) {
        let vals = json_values_of(data, 1)->0;
        if vals.len() == 1 && vals[0] is Array {
            vals[0]->Array_0@
        } else {
            vals
        }
    } else {
        json_values_of(data, SAMPLE_LIMIT as int)->0
    }
}

/// Infer a JSON schema from raw bytes: up to `SAMPLE_LIMIT` top-level
/// samples, depth capped at `MAX_DEPTH`, arrays sampled up to
/// `ARRAY_SAMPLE_LIMIT`, fields sorted by flattened path. Succeeds
/// exactly when the sampled prefix parses.
pub fn infer_schema_reader(data: &[u8]) -> (r: Result<
    crate::schema::Schema,
    crate::errors::SourceParseError,
>)
    ensures
        (r is Ok) == stream_parse_ok(data@),
        r is Ok ==> schema_matches_acc(
            (r->Ok_0)@,
            process_records_spec(
                stream_samples(data@),
                (if stream_samples(data@).len() <= SAMPLE_LIMIT as int {
                    stream_samples(data@).len() as int
                } else {
                    SAMPLE_LIMIT as int
                }),
                MAX_DEPTH as int,
                ARRAY_SAMPLE_LIMIT as int,
            ),
        ),
        r is Err ==> (r->Err_0).operation@ == "parse JSON value"@,
{
    let first = crate::util::peek_first_non_ws(data);
    let is_array = match first {
        Some(b) => b == 91,
        None => false,
    };
    if is_array {
        match parse_values(data, 1) {
            Ok(vals) => {
                if vals.len() == 1 {
                    let head = &vals[0];
                    match head {
                        JsonValue::Array(items) => {
                            return Ok(
                                infer_from_values(items, SAMPLE_LIMIT, MAX_DEPTH, ARRAY_SAMPLE_LIMIT),
                            );
                        },
                        _ => {},
                    }
                }
                Ok(infer_from_values(&vals, SAMPLE_LIMIT, MAX_DEPTH, ARRAY_SAMPLE_LIMIT))
            },
            Err(detail) => Err(
                crate::errors::SourceParseError {
                    operation: String::from_str("parse JSON value"),
                    detail,
                },
            ),
        }
    } else {
        match parse_values(data, SAMPLE_LIMIT) {
            Ok(vals) => Ok(infer_from_values(&vals, SAMPLE_LIMIT, MAX_DEPTH, ARRAY_SAMPLE_LIMIT)),
            Err(detail) => Err(
                crate::errors::SourceParseError {
                    operation: String::from_str("parse JSON value"),
                    detail,
                },
            ),
        }
    }
}

} // verus!
