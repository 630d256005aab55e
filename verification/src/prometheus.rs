//! Responses of the Prometheus HTTP API and the series loaded from them.
//!
//! A response holds either instant vectors (one `[epoch, sample]` pair per labelled metric),
//! range vectors (a list of pairs per labelled metric), or an unlabelled scalar or string pair.
//! The loader keeps the pairs of the metrics whose labels match the ones the series requires
//! and records them, in the order they arrive, in the series' circular buffer.

use vstd::prelude::*;
use crate::rgb::Rgb;
use crate::text::{
    decimal, decimal_text, ends_with, ends_with_text, find_char, first_index, join_text, text_equals,
};
use crate::timeseries::{
    TimeSeries, ValueCollisionPolicy, SeriesModel, upsert_model, upsert_safe, collision_resolves,
};

verus! {

/// A JSON value of a response as the loader reads it: as an epoch (a JSON number, whole
/// seconds) and as a sample (a JSON string that holds a number). Either may be absent.
#[derive(Debug, Clone, Copy, PartialEq)]
pub struct JsonValue<V> {
    /// The value read as an epoch, if it is a JSON number.
    pub epoch: Option<u64>,
    /// The value read as a sample, if it is a JSON string holding a number.
    pub number: Option<V>,
}

/// Range vectors of one labelled metric: a list of `[epoch, sample]` pairs.
#[derive(Debug, Clone, PartialEq)]
pub struct HTTPMatrixResult<V> {
    /// The labels of the metric, one pair per label name.
    pub labels: Vec<(String, String)>,
    /// The pairs, each a list whose elements are read two at a time.
    pub values: Vec<Vec<JsonValue<V>>>,
}

/// An instant vector of one labelled metric: one `[epoch, sample]` pair.
#[derive(Debug, Clone, PartialEq)]
pub struct HTTPVectorResult<V> {
    /// The labels of the metric, one pair per label name.
    pub labels: Vec<(String, String)>,
    /// The pair.
    pub value: Vec<JsonValue<V>>,
}

/// The data of a response, by result type.
#[derive(Debug, Clone, PartialEq)]
pub enum HTTPResponseData<V> {
    Vector { result: Vec<HTTPVectorResult<V>> },
    Matrix { result: Vec<HTTPMatrixResult<V>> },
    Scalar { result: Vec<JsonValue<V>> },
    String { result: Vec<JsonValue<V>> },
}

impl<V> Default for HTTPResponseData<V> {
    /// An instant vector with one unlabelled metric and no pair.
    fn default() -> (r: HTTPResponseData<V>)
        ensures
            r matches HTTPResponseData::Vector { result } && result@.len() == 1
                && result@[0].labels@.len() == 0 && result@[0].value@.len() == 0,
    {
        HTTPResponseData::Vector {
            result: vec![HTTPVectorResult { labels: Vec::new(), value: Vec::new() }],
        }
    }
}

/// A response: its status and its data.
#[derive(Debug, Clone, PartialEq)]
pub struct HTTPResponse<V> {
    pub data: HTTPResponseData<V>,
    pub status: String,
}

/// The value of the label `key`: that of the first pair named `key`. Labels come from a map,
/// so a name occurs at most once.
pub open spec fn label_value(labels: Seq<(String, String)>, key: Seq<char>) -> Option<Seq<char>>
    decreases labels.len(),
{
    if labels.len() == 0 {
        None
    } else if labels[0].0@ == key {
        Some(labels[0].1@)
    } else {
        label_value(labels.drop_first(), key)
    }
}

/// Every required label exists in `labels` with the required value.
pub open spec fn labels_match(required: Seq<(String, String)>, labels: Seq<(String, String)>) -> bool {
    forall|i: int| 0 <= i < required.len() ==> label_value(labels, #[trigger] required[i].0@) == Some(required[i].1@)
}

/// A label has a value exactly when some pair is named after it, and the value is that of
/// such a pair.
pub proof fn lemma_label_value_found(labels: Seq<(String, String)>, key: Seq<char>)
    ensures
        label_value(labels, key) is None <==> forall|j: int| 0 <= j < labels.len() ==> #[trigger] labels[j].0@ != key,
        label_value(labels, key) matches Some(v) ==> exists|j: int|
            0 <= j < labels.len() && #[trigger] labels[j].0@ == key && labels[j].1@ == v,
    decreases labels.len(),
{
    if labels.len() > 0 {
        let rest = labels.drop_first();
        lemma_label_value_found(rest, key);
        assert forall|j: int| 0 < j < labels.len() implies #[trigger] labels[j] == rest[j - 1] by {}
        if labels[0].0@ != key {
            if label_value(rest, key) is None {
                assert forall|j: int| 0 <= j < labels.len() implies #[trigger] labels[j].0@ != key by {
                    if j > 0 {
                        assert(labels[j] == rest[j - 1]);
                    }
                }
            } else {
                let k = choose|j: int| 0 <= j < rest.len() && #[trigger] rest[j].0@ == key && rest[j].1@ == label_value(rest, key).unwrap();
                assert(labels[k + 1] == rest[k]);
                assert(labels[k + 1].0@ == key);
            }
        } else {
            assert(labels[0].0@ == key);
        }
    }
}

/// Labels that lack a required label do not match.
pub proof fn lemma_missing_label_no_match(required: Seq<(String, String)>, labels: Seq<(String, String)>, i: int)
    requires
        0 <= i < required.len(),
        forall|j: int| 0 <= j < labels.len() ==> #[trigger] labels[j].0@ != required[i].0@,
    ensures
        !labels_match(required, labels),
{
    lemma_label_value_found(labels, required[i].0@);
}

/// Labels whose pairs named after a required label all hold another value do not match.
pub proof fn lemma_wrong_value_no_match(required: Seq<(String, String)>, labels: Seq<(String, String)>, i: int)
    requires
        0 <= i < required.len(),
        forall|j: int| 0 <= j < labels.len() && #[trigger] labels[j].0@ == required[i].0@ ==> labels[j].1@ != required[i].1@,
    ensures
        !labels_match(required, labels),
{
    lemma_label_value_found(labels, required[i].0@);
}

/// Labels with one pair per name that hold every required pair match.
pub proof fn lemma_present_labels_match(required: Seq<(String, String)>, labels: Seq<(String, String)>)
    requires
        forall|j: int, k: int| 0 <= j < k < labels.len() ==> #[trigger] labels[j].0@ != #[trigger] labels[k].0@,
        forall|i: int| #![trigger required[i]] 0 <= i < required.len() ==> exists|j: int|
            0 <= j < labels.len() && #[trigger] labels[j].0@ == required[i].0@ && labels[j].1@ == required[i].1@,
    ensures
        labels_match(required, labels),
{
    assert forall|i: int| 0 <= i < required.len() implies label_value(labels, #[trigger] required[i].0@) == Some(required[i].1@) by {
        let key = required[i].0@;
        let j = choose|j: int| 0 <= j < labels.len() && #[trigger] labels[j].0@ == key && labels[j].1@ == required[i].1@;
        lemma_label_value_found(labels, key);
        let v = label_value(labels, key).unwrap();
        let k = choose|k: int| 0 <= k < labels.len() && #[trigger] labels[k].0@ == key && labels[k].1@ == v;
        if k != j {
            if k < j {
                assert(labels[k].0@ != labels[j].0@);
            } else {
                assert(labels[j].0@ != labels[k].0@);
            }
        }
    }
}

/// The value of the label `key` in `labels`.
pub fn find_label<'a>(labels: &'a Vec<(String, String)>, key: &String) -> (r: Option<&'a String>)
    ensures
        r matches Some(v) ==> label_value(labels@, key@) == Some(v@),
        r is None ==> label_value(labels@, key@) is None,
{
    let mut i: usize = 0;
    assert(labels@.subrange(0, labels@.len() as int) =~= labels@);
    while i < labels.len()
        invariant
            i <= labels@.len(),
            label_value(labels@.subrange(i as int, labels@.len() as int), key@) == label_value(
                labels@,
                key@,
            ),
        decreases labels@.len() - i,
    {
        assert(labels@.subrange(i as int + 1, labels@.len() as int) =~= labels@.subrange(
            i as int,
            labels@.len() as int,
        ).drop_first());
        if labels[i].0 == *key {
            return Some(&labels[i].1);
        }
        i = i + 1;
    }
    None
}

/// Whether every required label exists in `labels` with the required value.
pub fn labels_satisfy(required: &Vec<(String, String)>, labels: &Vec<(String, String)>) -> (r: bool)
    ensures
        r == labels_match(required@, labels@),
{
    let mut i: usize = 0;
    while i < required.len()
        invariant
            i <= required@.len(),
            forall|j: int| 0 <= j < i ==> label_value(labels@, #[trigger] required@[j].0@) == Some(required@[j].1@),
        decreases required@.len() - i,
    {
        match find_label(labels, &required[i].0) {
            Some(value) => {
                if *value != required[i].1 {
                    return false;
                }
            },
            None => {
                return false;
            },
        }
        i = i + 1;
    }
    true
}


/// The entry a `[epoch, sample]` pair gives: none when the first element is not an epoch.
pub open spec fn pair_entry<V>(epoch: JsonValue<V>, sample: JsonValue<V>) -> Seq<(u64, Option<V>)> {
    match epoch.epoch {
        Some(e) => seq![(e, sample.number)],
        None => Seq::empty(),
    }
}

/// The entries of the first `n` pairs of a list read two elements at a time.
pub open spec fn row_entries<V>(row: Seq<JsonValue<V>>, n: int) -> Seq<(u64, Option<V>)>
    decreases n,
{
    if n <= 0 {
        Seq::empty()
    } else {
        row_entries(row, n - 1) + pair_entry(row[2 * (n - 1)], row[2 * (n - 1) + 1])
    }
}

/// The entries of a list of lists, each read two elements at a time; an odd last element
/// is left out.
pub open spec fn rows_entries<V>(rows: Seq<Vec<JsonValue<V>>>) -> Seq<(u64, Option<V>)>
    decreases rows.len(),
{
    if rows.len() == 0 {
        Seq::empty()
    } else {
        rows_entries(rows.drop_last()) + row_entries(rows.last()@, (rows.last()@.len() / 2) as int)
    }
}

/// The entries of the range vectors whose labels match.
pub open spec fn matrix_entries<V>(
    required: Seq<(String, String)>,
    results: Seq<HTTPMatrixResult<V>>,
) -> Seq<(u64, Option<V>)>
    decreases results.len(),
{
    if results.len() == 0 {
        Seq::empty()
    } else {
        matrix_entries(required, results.drop_last()) + if labels_match(
            required,
            results.last().labels@,
        ) {
            rows_entries(results.last().values@)
        } else {
            Seq::empty()
        }
    }
}

/// The entries of two runs of range vectors, one after the other, are those of the first
/// run followed by those of the second.
pub proof fn lemma_matrix_entries_append<V>(
    required: Seq<(String, String)>,
    a: Seq<HTTPMatrixResult<V>>,
    b: Seq<HTTPMatrixResult<V>>,
)
    ensures
        matrix_entries(required, a + b) == matrix_entries(required, a) + matrix_entries(required, b),
    decreases b.len(),
{
    if b.len() == 0 {
        assert(a + b =~= a);
    } else {
        lemma_matrix_entries_append(required, a, b.drop_last());
        assert((a + b).drop_last() =~= a + b.drop_last());
        assert((a + b).last() == b.last());
    }
}

/// A range vector whose labels do not match the required ones contributes no entry, wherever
/// it stands; one whose labels match contributes the entries of its pairs, in place.
pub proof fn lemma_matrix_entries_filter<V>(
    required: Seq<(String, String)>,
    a: Seq<HTTPMatrixResult<V>>,
    r: HTTPMatrixResult<V>,
    b: Seq<HTTPMatrixResult<V>>,
)
    ensures
        !labels_match(required, r.labels@) ==> matrix_entries(required, a + seq![r] + b)
            == matrix_entries(required, a + b),
        labels_match(required, r.labels@) ==> matrix_entries(required, a + seq![r] + b)
            == matrix_entries(required, a) + rows_entries(r.values@) + matrix_entries(required, b),
{
    lemma_matrix_entries_append(required, a + seq![r], b);
    lemma_matrix_entries_append(required, a, seq![r]);
    lemma_matrix_entries_append(required, a, b);
    assert(seq![r].drop_last() =~= Seq::<HTTPMatrixResult<V>>::empty());
    assert(matrix_entries(required, Seq::<HTTPMatrixResult<V>>::empty()) =~= Seq::<(u64, Option<V>)>::empty());
    if !labels_match(required, r.labels@) {
        assert(matrix_entries(required, seq![r]) =~= Seq::<(u64, Option<V>)>::empty());
        assert(matrix_entries(required, a) + matrix_entries(required, seq![r]) =~= matrix_entries(required, a));
    } else {
        assert(matrix_entries(required, seq![r]) =~= rows_entries(r.values@));
    }
}

/// The same holds of instant vectors: one whose labels do not match contributes no entry,
/// wherever it stands.
pub proof fn lemma_vector_entries_skip<V>(
    required: Seq<(String, String)>,
    a: Seq<HTTPVectorResult<V>>,
    r: HTTPVectorResult<V>,
    b: Seq<HTTPVectorResult<V>>,
)
    requires
        !labels_match(required, r.labels@),
    ensures
        vector_entries(required, a + seq![r] + b) == vector_entries(required, a + b),
    decreases b.len(),
{
    if b.len() == 0 {
        assert(a + seq![r] + b =~= a.push(r));
        assert(a.push(r).drop_last() =~= a);
        assert(a + b =~= a);
        assert(vector_entries(required, a.push(r)) =~= vector_entries(required, a));
    } else {
        lemma_vector_entries_skip(required, a, r, b.drop_last());
        assert((a + seq![r] + b).drop_last() =~= a + seq![r] + b.drop_last());
        assert((a + b).drop_last() =~= a + b.drop_last());
        assert((a + seq![r] + b).last() == b.last());
        assert((a + b).last() == b.last());
    }
}

/// The entries of the instant vectors whose labels match and that hold exactly one pair.
pub open spec fn vector_entries<V>(
    required: Seq<(String, String)>,
    results: Seq<HTTPVectorResult<V>>,
) -> Seq<(u64, Option<V>)>
    decreases results.len(),
{
    if results.len() == 0 {
        Seq::empty()
    } else {
        vector_entries(required, results.drop_last()) + if labels_match(
            required,
            results.last().labels@,
        ) && results.last().value@.len() == 2 {
            pair_entry(results.last().value@[0], results.last().value@[1])
        } else {
            Seq::empty()
        }
    }
}

/// The entries a response gives, in the order they are recorded: those of the metrics whose
/// labels match `required`, and for a scalar or a string the pair formed by its first two
/// elements.
pub open spec fn response_entries<V>(
    required: Seq<(String, String)>,
    data: HTTPResponseData<V>,
) -> Seq<(u64, Option<V>)> {
    match data {
        HTTPResponseData::Vector { result } => vector_entries(required, result@),
        HTTPResponseData::Matrix { result } => matrix_entries(required, result@),
        HTTPResponseData::Scalar { result } => if result@.len() > 1 {
            pair_entry(result@[0], result@[1])
        } else {
            Seq::empty()
        },
        HTTPResponseData::String { result } => if result@.len() > 1 {
            pair_entry(result@[0], result@[1])
        } else {
            Seq::empty()
        },
    }
}

/// Appends the entry of a `[epoch, sample]` pair, if it has one.
fn push_pair_entry<V: Copy>(out: &mut Vec<(u64, Option<V>)>, epoch: &JsonValue<V>, sample: &JsonValue<V>)
    ensures
        final(out)@ == old(out)@ + pair_entry(*epoch, *sample),
{
    if let Some(e) = epoch.epoch {
        out.push((e, sample.number));
    }
    assert(final(out)@ =~= old(out)@ + pair_entry(*epoch, *sample));
}

/// The entries a response gives, in order (see `response_entries`).
pub fn collect_entries<V: Copy>(required: &Vec<(String, String)>, data: &HTTPResponseData<V>) -> (r: Vec<(u64, Option<V>)>)
    ensures
        r@ == response_entries(required@, *data),
{
    let mut out: Vec<(u64, Option<V>)> = Vec::new();
    match data {
        HTTPResponseData::Vector { result } => {
            let mut k: usize = 0;
            while k < result.len()
                invariant
                    k <= result@.len(),
                    out@ == vector_entries(required@, result@.take(k as int)),
                decreases result@.len() - k,
            {
                assert(result@.take(k as int + 1).drop_last() =~= result@.take(k as int));
                let metric = &result[k];
                if labels_satisfy(required, &metric.labels) && metric.value.len() == 2 {
                    push_pair_entry(&mut out, &metric.value[0], &metric.value[1]);
                } else {
                    assert(out@ =~= out@ + Seq::<(u64, Option<V>)>::empty());
                }
                k = k + 1;
            }
            assert(result@.take(result@.len() as int) =~= result@);
        },
        HTTPResponseData::Matrix { result } => {
            let mut k: usize = 0;
            while k < result.len()
                invariant
                    k <= result@.len(),
                    out@ == matrix_entries(required@, result@.take(k as int)),
                decreases result@.len() - k,
            {
                assert(result@.take(k as int + 1).drop_last() =~= result@.take(k as int));
                let metric = &result[k];
                let ghost before = out@;
                if labels_satisfy(required, &metric.labels) {
                    let rows = &metric.values;
                    let mut r: usize = 0;
                    while r < rows.len()
                        invariant
                            r <= rows@.len(),
                            out@ == before + rows_entries(rows@.take(r as int)),
                        decreases rows@.len() - r,
                    {
                        assert(rows@.take(r as int + 1).drop_last() =~= rows@.take(r as int));
                        let row = &rows[r];
                        let ghost row_start = out@;
                        let mut j: usize = 0;
                        while j < row.len() / 2
                            invariant
                                j <= row@.len() / 2,
                                out@ == row_start + row_entries(row@, j as int),
                            decreases row@.len() / 2 - j,
                        {
                            push_pair_entry(&mut out, &row[2 * j], &row[2 * j + 1]);
                            assert(out@ =~= row_start + row_entries(row@, j as int + 1));
                            j = j + 1;
                        }
                        assert(out@ =~= before + rows_entries(rows@.take(r as int + 1)));
                        r = r + 1;
                    }
                    assert(rows@.take(rows@.len() as int) =~= rows@);
                } else {
                    assert(out@ =~= out@ + Seq::<(u64, Option<V>)>::empty());
                }
                k = k + 1;
            }
            assert(result@.take(result@.len() as int) =~= result@);
        },
        HTTPResponseData::Scalar { result } => {
            if result.len() > 1 {
                push_pair_entry(&mut out, &result[0], &result[1]);
            }
            assert(out@ =~= response_entries(required@, *data));
        },
        HTTPResponseData::String { result } => {
            if result.len() > 1 {
                push_pair_entry(&mut out, &result[0], &result[1]);
            }
            assert(out@ =~= response_entries(required@, *data));
        },
    }
    out
}


/// A parsed URL.
#[verifier::external_type_specification]
#[verifier::external_body]
pub struct ExUri(hyper::Uri);

/// `next` and `count` are a possible outcome of upserting `input` into a series in state `s`:
/// the state and count `upsert_model` gives, with the value the collision policy decides in
/// the entry it names, if any.
pub open spec fn upsert_step<V, I: Fn(V, V) -> V, D: Fn(V, V) -> V>(
    policy: ValueCollisionPolicy,
    increment: I,
    decrement: D,
    s: SeriesModel<V>,
    input: (u64, Option<V>),
    next: SeriesModel<V>,
    count: int,
) -> bool {
    let out = upsert_model(s, input);
    &&& count == out.count
    &&& out.collision is None ==> next == out.next
    &&& out.collision matches Some(i) ==> {
        &&& next == SeriesModel { slots: out.next.slots.update(i, (out.next.slots[i].0, next.slots[i].1)), ..out.next }
        &&& collision_resolves(policy, increment, decrement, s.slots[i].1, input.1, next.slots[i].1)
    }
}

/// Upserting `inputs` one after the other into a series in state `s` never fails and the
/// counts the upserts report add up to at most `budget`.
pub open spec fn loads_safely<V, I: Fn(V, V) -> V, D: Fn(V, V) -> V>(
    policy: ValueCollisionPolicy,
    increment: I,
    decrement: D,
    s: SeriesModel<V>,
    inputs: Seq<(u64, Option<V>)>,
    budget: int,
) -> bool
    decreases inputs.len(),
{
    if inputs.len() == 0 {
        true
    } else {
        &&& upsert_safe(s, inputs[0])
        &&& forall|next: SeriesModel<V>, count: int|
            #[trigger] upsert_step(policy, increment, decrement, s, inputs[0], next, count) ==> {
                &&& count <= budget
                &&& loads_safely(policy, increment, decrement, next, inputs.drop_first(), budget - count)
            }
    }
}

/// `states` and `counts` trace upserting `inputs` one after the other: upsert `i` takes the
/// series from `states[i]` to `states[i + 1]` and reports `counts[i]`.
pub open spec fn upsert_chain<V, I: Fn(V, V) -> V, D: Fn(V, V) -> V>(
    policy: ValueCollisionPolicy,
    increment: I,
    decrement: D,
    inputs: Seq<(u64, Option<V>)>,
    states: Seq<SeriesModel<V>>,
    counts: Seq<int>,
) -> bool {
    &&& states.len() == inputs.len() + 1
    &&& counts.len() == inputs.len()
    &&& forall|i: int|
        #![trigger counts[i]]
        0 <= i < inputs.len() ==> upsert_step(policy, increment, decrement, states[i], inputs[i], states[i + 1], counts[i])
}

/// The sum of the counts.
pub open spec fn count_total(counts: Seq<int>) -> int
    decreases counts.len(),
{
    if counts.len() == 0 {
        0
    } else {
        count_total(counts.drop_last()) + counts.last()
    }
}

/// One more upsert extends a trace of upserts.
pub proof fn lemma_chain_push<V, I: Fn(V, V) -> V, D: Fn(V, V) -> V>(
    policy: ValueCollisionPolicy,
    increment: I,
    decrement: D,
    inputs: Seq<(u64, Option<V>)>,
    states: Seq<SeriesModel<V>>,
    counts: Seq<int>,
    input: (u64, Option<V>),
    next: SeriesModel<V>,
    count: int,
)
    requires
        upsert_chain(policy, increment, decrement, inputs, states, counts),
        upsert_step(policy, increment, decrement, states.last(), input, next, count),
    ensures
        upsert_chain(policy, increment, decrement, inputs.push(input), states.push(next), counts.push(count)),
        count_total(counts.push(count)) == count_total(counts) + count,
        states.push(next)[0] == states[0],
        states.push(next).last() == next,
{
    let all_inputs = inputs.push(input);
    let all_states = states.push(next);
    let all_counts = counts.push(count);
    assert(all_counts.drop_last() =~= counts);
    assert forall|i: int| #![trigger all_counts[i]] 0 <= i < all_inputs.len() implies upsert_step(
        policy,
        increment,
        decrement,
        all_states[i],
        all_inputs[i],
        all_states[i + 1],
        all_counts[i],
    ) by {
        if i < inputs.len() {
            assert(counts[i] == all_counts[i]);
        }
    }
}

/// Upserting `inputs` one after the other into a series in state `s` can end in state `last`
/// with the reported counts adding up to `total`.
pub open spec fn loaded_by<V, I: Fn(V, V) -> V, D: Fn(V, V) -> V>(
    policy: ValueCollisionPolicy,
    increment: I,
    decrement: D,
    s: SeriesModel<V>,
    inputs: Seq<(u64, Option<V>)>,
    last: SeriesModel<V>,
    total: int,
) -> bool {
    exists|states: Seq<SeriesModel<V>>, counts: Seq<int>|
        #![trigger upsert_chain(policy, increment, decrement, inputs, states, counts)]
        {
            &&& upsert_chain(policy, increment, decrement, inputs, states, counts)
            &&& states[0] == s
            &&& states.last() == last
            &&& count_total(counts) == total
        }
}

/// A trace of upserts without its last step is a trace of the upserts of all inputs but the
/// last.
pub proof fn lemma_chain_drop_last<V, I: Fn(V, V) -> V, D: Fn(V, V) -> V>(
    policy: ValueCollisionPolicy,
    increment: I,
    decrement: D,
    inputs: Seq<(u64, Option<V>)>,
    states: Seq<SeriesModel<V>>,
    counts: Seq<int>,
)
    requires
        upsert_chain(policy, increment, decrement, inputs, states, counts),
        inputs.len() > 0,
    ensures
        upsert_chain(policy, increment, decrement, inputs.drop_last(), states.drop_last(), counts.drop_last()),
        states.drop_last()[0] == states[0],
        states.drop_last().last() == states[inputs.len() - 1],
        count_total(counts) == count_total(counts.drop_last()) + counts.last(),
{
    let n = inputs.len() as int;
    let ins = inputs.drop_last();
    let sts = states.drop_last();
    let cts = counts.drop_last();
    assert forall|i: int| #![trigger cts[i]] 0 <= i < ins.len() implies upsert_step(
        policy,
        increment,
        decrement,
        sts[i],
        ins[i],
        sts[i + 1],
        cts[i],
    ) by {
        assert(counts[i] == cts[i]);
    }
}

/// What loading the entries of a successful response does to a Prometheus series `p`, giving
/// `q` and the count `n`: the upserts of the entries, one after the other, take the series to
/// its new state and report counts that add up to `n`; the series remembers the last entry and
/// the branch its upsert took (or keeps both when there is no entry); nothing else changes.
pub open spec fn response_loaded<V: Copy, I: Fn(V, V) -> V, D: Fn(V, V) -> V>(
    p: PrometheusTimeSeries<V, I, D>,
    data: HTTPResponseData<V>,
    q: PrometheusTimeSeries<V, I, D>,
    n: int,
) -> bool {
    let policy = p.series.collision_policy;
    let increment = p.series.increment;
    let decrement = p.series.decrement;
    let entries = response_entries(p.required_labels@, data);
    &&& loaded_by(policy, increment, decrement, p.series.model(), entries, q.series.model(), n)
    &&& entries.len() == 0 ==> {
        &&& q.series.prev_value == p.series.prev_value
        &&& q.series.upsert_type == p.series.upsert_type
    }
    &&& entries.len() > 0 ==> {
        &&& q.series.prev_value == entries.last()
        &&& exists|mid: SeriesModel<V>, before: int|
            #![trigger loaded_by(policy, increment, decrement, p.series.model(), entries.drop_last(), mid, before)]
            {
                &&& loaded_by(policy, increment, decrement, p.series.model(), entries.drop_last(), mid, before)
                &&& q.series.upsert_type == upsert_model(mid, entries.last()).kind
            }
    }
    &&& q.series.collision_policy == policy
    &&& q.series.metrics_capacity == p.series.metrics_capacity
    &&& q.series.increment == increment
    &&& q.series.decrement == decrement
    &&& q.name == p.name
    &&& q.data == p.data
    &&& q.source == p.source
    &&& q.url == p.url
    &&& q.data_type == p.data_type
    &&& q.required_labels == p.required_labels
    &&& q.pull_interval == p.pull_interval
    &&& q.color == p.color
}

/// Index of the first `?` of `s`, or the length of `s` if there is none.
pub open spec fn first_question_mark(s: Seq<char>) -> int {
    first_index(s, '?')
}

/// `s` without its `?` characters.
pub open spec fn without_question_marks(s: Seq<char>) -> Seq<char>
    decreases s.len(),
{
    if s.len() == 0 {
        Seq::empty()
    } else if s.last() == '?' {
        without_question_marks(s.drop_last())
    } else {
        without_question_marks(s.drop_last()).push(s.last())
    }
}

/// The part of a source URL before its first `?`.
pub open spec fn url_base(source: Seq<char>) -> Seq<char> {
    source.take(first_question_mark(source))
}

/// The query of a source URL: what follows its first `?`, without any further `?` (one
/// parameter is supported; the parts a `?` separates are joined).
pub open spec fn url_query(source: Seq<char>) -> Seq<char> {
    without_question_marks(source.skip(first_question_mark(source) + 1))
}

/// The path of a query that asks for a time range.
pub open spec fn range_query_path() -> Seq<char> {
    "/api/v1/query_range"@
}

/// Whether a source URL asks for a time range: its path ends in the range query path. As the
/// encoded query holds no `?`, this is where `/api/v1/query_range?` can occur in the URL.
pub open spec fn is_range_query(source: Seq<char>) -> bool {
    ends_with(url_base(source), range_query_path())
}

/// The text of the URL built from a source URL whose query encodes as `encoded`: the base,
/// `?` and the encoded query, then for a range query the time range of the `capacity` seconds
/// up to `now`, in steps of one second.
pub open spec fn url_text(source: Seq<char>, encoded: Seq<char>, capacity: int, now: int) -> Seq<char> {
    let url = url_base(source) + seq!['?'] + encoded;
    if is_range_query(source) {
        url + "&start="@ + decimal((now - capacity) as nat) + "&end="@ + decimal(now as nat) + "&step=1"@
    } else {
        url
    }
}

/// The message for a URL without a query.
pub open spec fn missing_query_message() -> Seq<char> {
    "Unable to get url_parts, expected http://host:port/location?params"@
}

/// How an optional scheme is written in a message: `None`, or `Some("scheme")`.
pub open spec fn scheme_debug(scheme: Option<Seq<char>>) -> Seq<char> {
    match scheme {
        Some(sc) => "Some(\""@ + sc + "\")"@,
        None => "None"@,
    }
}

/// Whether a scheme is one the loader supports: HTTP or HTTPS.
pub open spec fn supported_scheme(scheme: Option<Seq<char>>) -> bool {
    scheme == Some("http"@) || scheme == Some("https"@)
}

/// What the checks on a parsed URL decide: the URL is kept when it parsed and its scheme is
/// supported; otherwise the message says why not.
pub open spec fn url_verdict(parsed: Result<(hyper::Uri, Option<Seq<char>>), Seq<char>>) -> Result<hyper::Uri, Seq<char>> {
    match parsed {
        Ok((uri, scheme)) => if supported_scheme(scheme) {
            Ok(uri)
        } else {
            Err("Unsupported protocol: "@ + scheme_debug(scheme))
        },
        Err(e) => Err("Unable to parse URL: "@ + e),
    }
}

/// The URL built from `source`, parsed, or the message that says why it is refused: a source
/// without a query is refused, and so is a URL that does not parse or whose scheme is neither
/// HTTP nor HTTPS.
pub open spec fn url_outcome(source: Seq<char>, capacity: int, now: int) -> Result<hyper::Uri, Seq<char>> {
    if first_question_mark(source) == source.len() {
        Err(missing_query_message())
    } else {
        url_verdict(parsed_uri(url_text(source, percent_encoded(url_query(source)), capacity, now)))
    }
}

/// What parsing `text` as a URL gives: the URL and its scheme, if it has one, or the
/// description of the parse error.
pub uninterp spec fn parsed_uri(text: Seq<char>) -> Result<(hyper::Uri, Option<Seq<char>>), Seq<char>>;

/// Whether a character is in the default percent-encode set: controls, characters outside
/// ASCII, space, `"`, `#`, `<`, `>`, `` ` ``, `?`, `{` and `}`.
pub open spec fn in_default_encode_set(c: char) -> bool {
    ||| (c as u32) < 0x20
    ||| (c as u32) > 0x7E
    ||| c == ' ' || c == '"' || c == '#' || c == '<' || c == '>'
    ||| c == '`' || c == '?' || c == '{' || c == '}'
}

/// The upper-case hexadecimal digit `d`.
pub open spec fn upper_hex_digit(d: int) -> char {
    if d < 10 {
        ('0' as u32 + d) as char
    } else {
        ('A' as u32 + d - 10) as char
    }
}

/// An ASCII character percent-encoded with the default encode set: itself, or `%XX`.
pub open spec fn encoded_ascii_char(c: char) -> Seq<char> {
    if in_default_encode_set(c) {
        seq!['%', upper_hex_digit((c as u32 / 16) as int), upper_hex_digit((c as u32 % 16) as int)]
    } else {
        seq![c]
    }
}

/// An ASCII text percent-encoded with the default encode set, character by character.
pub open spec fn ascii_percent_encoded(q: Seq<char>) -> Seq<char>
    decreases q.len(),
{
    if q.len() == 0 {
        Seq::empty()
    } else {
        ascii_percent_encoded(q.drop_last()) + encoded_ascii_char(q.last())
    }
}

/// Whether every character of a text is ASCII.
pub open spec fn all_ascii(q: Seq<char>) -> bool {
    forall|i: int| 0 <= i < q.len() ==> (#[trigger] q[i] as u32) < 0x80
}

/// The query encoded with the default percent-encode set.
pub uninterp spec fn percent_encoded(query: Seq<char>) -> Seq<char>;

/// A parsed URL and its scheme.
pub struct ParsedUri {
    pub uri: hyper::Uri,
    pub scheme: Option<String>,
}

/// The view of an optional text.
pub open spec fn text_option(t: Option<String>) -> Option<Seq<char>> {
    match t {
        Some(x) => Some(x@),
        None => None,
    }
}

/// A parsed URL and its scheme, or the description of the parse error.
pub open spec fn parse_outcome(parsed: Result<ParsedUri, String>) -> Result<(hyper::Uri, Option<Seq<char>>), Seq<char>> {
    match parsed {
        Ok(p) => Ok((p.uri, text_option(p.scheme))),
        Err(m) => Err(m@),
    }
}

/// A URL or a message, with the message as its view.
pub open spec fn uri_result(r: Result<hyper::Uri, String>) -> Result<hyper::Uri, Seq<char>> {
    match r {
        Ok(u) => Ok(u),
        Err(m) => Err(m@),
    }
}

/// Parses `text` as a URL with `hyper::Uri`'s `FromStr`, keeping the URL and the scheme
/// `Uri::scheme_str` gives, or the `Debug` text of the `InvalidUri` error. The contract ties
/// the outcome to the text through the name `parsed_uri` and does not state the parser's rules.
#[verifier::external_body]
fn parse_uri(text: &str) -> (r: Result<ParsedUri, String>)
    ensures
        parse_outcome(r) == parsed_uri(text@),
{
    match text.parse::<hyper::Uri>() {
        Ok(uri) => {
            let scheme = uri.scheme_str().map(String::from);
            Ok(ParsedUri { uri, scheme })
        },
        Err(err) => Err(format!("{:?}", err)),
    }
}

/// Encodes a query with `percent_encoding::utf8_percent_encode` and the default encode set
/// (controls, non-ASCII bytes, space, `"`, `#`, `<`, `>`, `` ` ``, `?`, `{` and `}` become
/// `%XX`, upper case). The contract states the encoding of an ASCII query and that no result
/// holds `?`; for other queries it names the result (each byte of the UTF-8 encoding of a
/// non-ASCII character becomes `%XX`).
#[verifier::external_body]
fn percent_encode_query(query: &str) -> (r: String)
    ensures
        r@ == percent_encoded(query@),
        all_ascii(query@) ==> r@ == ascii_percent_encoded(query@),
        forall|i: int| 0 <= i < r@.len() ==> r@[i] != '?',
{
    percent_encoding::utf8_percent_encode(query, percent_encoding::DEFAULT_ENCODE_SET).to_string()
}

/// Keeps a parsed URL whose scheme is HTTP or HTTPS; otherwise returns the message that says
/// why the URL is refused (see `url_verdict`).
pub fn accept_parsed_uri(parsed: Result<ParsedUri, String>) -> (r: Result<hyper::Uri, String>)
    ensures
        uri_result(r) == url_verdict(parse_outcome(parsed)),
{
    match parsed {
        Ok(p) => {
            let supported = match &p.scheme {
                Some(sc) => text_equals(sc.as_str(), "http") || text_equals(sc.as_str(), "https"),
                None => false,
            };
            if supported {
                Ok(p.uri)
            } else {
                let shown = match &p.scheme {
                    Some(sc) => {
                        let opened = join_text("Some(\"", sc.as_str());
                        join_text(opened.as_str(), "\")")
                    },
                    None => "None".to_owned(),
                };
                Err(join_text("Unsupported protocol: ", shown.as_str()))
            }
        },
        Err(e) => Err(join_text("Unable to parse URL: ", e.as_str())),
    }
}

/// The characters of `s` from `from` on, without `?`.
fn query_after(s: &str, from: usize) -> (r: String)
    requires
        from <= s@.len(),
    ensures
        r@ == without_question_marks(s@.skip(from as int)),
{
    let n = s.unicode_len();
    let mut out = String::new();
    let mut j: usize = from;
    while j < n
        invariant
            n == s@.len(),
            from <= j <= n,
            out@ == without_question_marks(s@.subrange(from as int, j as int)),
        decreases n - j,
    {
        assert(s@.subrange(from as int, j as int + 1).drop_last() =~= s@.subrange(from as int, j as int));
        if s.get_char(j) != '?' {
            out.append(s.substring_char(j, j + 1));
        }
        assert(out@ =~= without_question_marks(s@.subrange(from as int, j as int + 1)));
        j = j + 1;
    }
    assert(s@.subrange(from as int, n as int) =~= s@.skip(from as int));
    out
}

/// A series loaded from a Prometheus server.
pub struct PrometheusTimeSeries<V, I, D> {
    /// The name of the series.
    pub name: String,
    /// The entries loaded so far.
    pub series: TimeSeries<V, I, D>,
    /// The data of the last response.
    pub data: HTTPResponseData<V>,
    /// The URL the metrics are loaded from, as configured.
    pub source: String,
    /// The URL the metrics are loaded from, with the query encoded and, for a range query,
    /// the time range.
    pub url: hyper::Uri,
    /// The result type expected: vector, matrix, scalar or string.
    pub data_type: String,
    /// The labels, and their values, a metric must have to be loaded.
    pub required_labels: Vec<(String, String)>,
    /// Seconds between two loads.
    pub pull_interval: usize,
    /// The colour the series is drawn in.
    pub color: Rgb,
}

impl<V: Copy, I: Fn(V, V) -> V, D: Fn(V, V) -> V> PrometheusTimeSeries<V, I, D> {
    /// Builds the URL the metrics are loaded from: the source's base, `?` and its query
    /// percent-encoded, plus for a range query (`.../api/v1/query_range?...`) the time range
    /// of `metrics_capacity` seconds up to `now`, in steps of one second. Only HTTP and HTTPS
    /// URLs are accepted.
    pub fn prepare_url(source: &str, metrics_capacity: u64, now: u64) -> (r: Result<hyper::Uri, String>)
        requires
            is_range_query(source@) ==> metrics_capacity <= now,
        ensures
            uri_result(r) == url_outcome(source@, metrics_capacity as int, now as int),
    {
        let q = find_char(source, '?');
        if q == source.unicode_len() {
            return Err("Unable to get url_parts, expected http://host:port/location?params".to_owned());
        }
        let base = source.substring_char(0, q);
        let query = query_after(source, q + 1);
        let encoded = percent_encode_query(query.as_str());
        let with_mark = join_text(base, "?");
        proof {
            reveal_strlit("?");
        }
        assert(base@ =~= url_base(source@));
        assert(with_mark@ =~= url_base(source@) + seq!['?']);
        let mut url = join_text(with_mark.as_str(), encoded.as_str());
        // The encoded query holds no `?`, so `/api/v1/query_range?` can only occur where the
        // base meets the query.
        if ends_with_text(base, "/api/v1/query_range") {
            let end = now;
            let start = end - metrics_capacity;
            url.append("&start=");
            url.append(decimal_text(start).as_str());
            url.append("&end=");
            url.append(decimal_text(end).as_str());
            url.append("&step=1");
        }
        assert(url@ =~= url_text(source@, percent_encoded(url_query(source@)), metrics_capacity as int, now as int));
        accept_parsed_uri(parse_uri(url.as_str()))
    }

    /// A series loaded from `url_param`, with a buffer of the default capacity whose colliding
    /// values overwrite each other, and the URL built by `prepare_url` at time `now`.
    pub fn new(
        url_param: String,
        pull_interval: usize,
        data_type: String,
        required_labels: Vec<(String, String)>,
        now: u64,
        increment: I,
        decrement: D,
    ) -> (r: Result<Self, String>)
        requires
            is_range_query(url_param@) ==> 300 <= now,
        ensures
            url_outcome(url_param@, 300, now as int) is Ok <==> r is Ok,
            r matches Err(m) ==> url_outcome(url_param@, 300, now as int) == Err::<hyper::Uri, Seq<char>>(m@),
            r matches Ok(p) ==> {
                &&& url_outcome(url_param@, 300, now as int) == Ok::<hyper::Uri, Seq<char>>(p.url)
                &&& p.name@ == "Unset"@
                &&& p.source == url_param
                &&& p.data_type == data_type
                &&& p.required_labels == required_labels
                &&& p.pull_interval == pull_interval
                &&& p.color == Rgb { r: 0, g: 0, b: 0 }
                &&& p.series.metrics@.len() == 0
                &&& p.series.metrics_capacity == 300
                &&& p.series.collision_policy == ValueCollisionPolicy::Overwrite
                &&& p.series.first_idx == 0
                &&& p.series.active_items == 0
                &&& p.series.prev_snapshot@.len() == 0
                &&& !p.series.stats_dirty
                &&& p.series.increment == increment
                &&& p.series.decrement == decrement
                &&& p.data matches HTTPResponseData::Vector { result } && result@.len() == 1
                    && result@[0].labels@.len() == 0 && result@[0].value@.len() == 0
            },
    {
        let mut series = TimeSeries::new(increment, decrement);
        series.collision_policy = ValueCollisionPolicy::Overwrite;
        let capacity = series.metrics_capacity;
        match Self::prepare_url(url_param.as_str(), capacity as u64, now) {
            Ok(url) => Ok(PrometheusTimeSeries {
                name: "Unset".to_owned(),
                series,
                data: HTTPResponseData::default(),
                source: url_param,
                url,
                data_type,
                required_labels,
                pull_interval,
                color: Rgb { r: 0, g: 0, b: 0 },
            }),
            Err(err) => Err(err),
        }
    }

    /// Makes colliding values overwrite each other, as loaded series expect.
    pub fn init(&mut self)
        ensures
            final(self).series.collision_policy == ValueCollisionPolicy::Overwrite,
            final(self).series.metrics == old(self).series.metrics,
            final(self).series.metrics_capacity == old(self).series.metrics_capacity,
            final(self).series.first_idx == old(self).series.first_idx,
            final(self).series.active_items == old(self).series.active_items,
            final(self).series.increment == old(self).series.increment,
            final(self).series.decrement == old(self).series.decrement,
            final(self).series.prev_snapshot == old(self).series.prev_snapshot,
            final(self).series.prev_value == old(self).series.prev_value,
            final(self).series.upsert_type == old(self).series.upsert_type,
            final(self).series.stats_dirty == old(self).series.stats_dirty,
            final(self).name == old(self).name,
            final(self).data == old(self).data,
            final(self).source == old(self).source,
            final(self).url == old(self).url,
            final(self).data_type == old(self).data_type,
            final(self).required_labels == old(self).required_labels,
            final(self).pull_interval == old(self).pull_interval,
            final(self).color == old(self).color,
    {
        self.series.collision_policy = ValueCollisionPolicy::Overwrite;
    }

    /// Whether the labels of a metric include every required label with its required value.
    pub fn match_metric_labels(&self, metric_labels: &Vec<(String, String)>) -> (r: bool)
        ensures
            r == labels_match(self.required_labels@, metric_labels@),
    {
        labels_satisfy(&self.required_labels, metric_labels)
    }

    /// Records the entries of a successful response in the series (see `response_entries`)
    /// and returns how many entries the upserts report as inserted. A response whose status is
    /// not `success` changes nothing.
    pub fn load_prometheus_response(&mut self, res: HTTPResponse<V>) -> (r: Result<usize, String>)
        requires
            old(self).series.arithmetic_total(),
            res.status@ == "success"@ ==> loads_safely(
                old(self).series.collision_policy,
                old(self).series.increment,
                old(self).series.decrement,
                old(self).series.model(),
                response_entries(old(self).required_labels@, res.data),
                usize::MAX as int,
            ),
        ensures
            res.status@ != "success"@ ==> r == Ok::<usize, String>(0) && *final(self) == *old(self),
            res.status@ == "success"@ ==> (r matches Ok(n) && response_loaded(*old(self), res.data, *final(self), n as int)),
    {
        if !text_equals(res.status.as_str(), "success") {
            return Ok(0);
        }
        let entries = collect_entries(&self.required_labels, &res.data);
        let ghost policy = self.series.collision_policy;
        let ghost increment = self.series.increment;
        let ghost decrement = self.series.decrement;
        let ghost start = self.series.model();
        let mut loaded: usize = 0;
        let mut k: usize = 0;
        let ghost mut states: Seq<SeriesModel<V>> = seq![start];
        let ghost mut counts: Seq<int> = Seq::empty();
        assert(entries@.skip(0) =~= entries@);
        assert(entries@.take(0) =~= Seq::<(u64, Option<V>)>::empty());
        while k < entries.len()
            invariant
                k <= entries@.len(),
                self.series.arithmetic_total(),
                self.series.collision_policy == policy,
                self.series.increment == increment,
                self.series.decrement == decrement,
                self.series.metrics_capacity == old(self).series.metrics_capacity,
                policy == old(self).series.collision_policy,
                increment == old(self).series.increment,
                decrement == old(self).series.decrement,
                start == old(self).series.model(),
                upsert_chain(policy, increment, decrement, entries@.take(k as int), states, counts),
                states[0] == start,
                states.last() == self.series.model(),
                count_total(counts) == loaded,
                k == 0 ==> self.series.prev_value == old(self).series.prev_value
                    && self.series.upsert_type == old(self).series.upsert_type,
                k > 0 ==> self.series.prev_value == entries@[k - 1]
                    && self.series.upsert_type == upsert_model(states[k - 1], entries@[k - 1]).kind,
                loads_safely(policy, increment, decrement, self.series.model(), entries@.skip(k as int), usize::MAX - loaded),
                self.name == old(self).name,
                self.data == old(self).data,
                self.source == old(self).source,
                self.url == old(self).url,
                self.data_type == old(self).data_type,
                self.required_labels == old(self).required_labels,
                self.pull_interval == old(self).pull_interval,
                self.color == old(self).color,
            decreases entries@.len() - k,
        {
            let ghost before = self.series.model();
            let ghost rest = entries@.skip(k as int);
            assert(rest[0] == entries@[k as int]);
            let count = self.series.upsert(entries[k]);
            let ghost after = self.series.model();
            assert(upsert_step(policy, increment, decrement, before, rest[0], after, count as int));
            assert(rest.drop_first() =~= entries@.skip(k as int + 1));
            assert(entries@.take(k as int + 1) =~= entries@.take(k as int).push(entries@[k as int]));
            proof {
                lemma_chain_push(policy, increment, decrement, entries@.take(k as int), states, counts, entries@[k as int], after, count as int);
                states = states.push(after);
                counts = counts.push(count as int);
            }
            loaded = loaded + count;
            k = k + 1;
        }
        assert(entries@.take(entries@.len() as int) =~= entries@);
        assert(upsert_chain(policy, increment, decrement, entries@, states, counts));
        proof {
            let n = entries@.len() as int;
            if n > 0 {
                lemma_chain_drop_last(policy, increment, decrement, entries@, states, counts);
                let mid = states[n - 1];
                let before = count_total(counts.drop_last());
                assert(loaded_by(policy, increment, decrement, start, entries@.drop_last(), mid, before));
            }
        }
        Ok(loaded)
    }
}

} // verus!
