//! What a simulation prints, and how the values of the workers are combined
//! into one row.

use crate::compute::Compute;
use crate::utils::keyed_vec::{KeyError, KeyedVec};
use vstd::prelude::*;
use vstd::string::StringExecFns;

verus! {

/// How the values that the workers report for one column become one value.
#[derive(Clone, Copy, Debug, PartialEq, Eq, Structural)]
pub enum Operation {
    /// The value of the first worker.
    First,
    Max,
    Min,
    Sum,
}

/// Something whose per-worker values are combined by an operation.
pub trait Operatable {
    fn op(&self) -> Operation;
}

/// One column of the output.
#[derive(Clone, Copy, Debug, PartialEq, Eq, Structural)]
pub enum OutputSpec {
    /// The step number.
    Step,
    /// A computed quantity.
    Compute(Compute),
}

impl OutputSpec {
    /// The column title.
    pub open spec fn spec_name(self) -> Seq<char> {
        match self {
            OutputSpec::Step => "step"@,
            OutputSpec::Compute(c) => c.spec_name(),
        }
    }

    /// The column title.
    pub fn name(&self) -> (s: &'static str)
        ensures
            s@ == self.spec_name(),
    {
        match self {
            OutputSpec::Step => "step",
            OutputSpec::Compute(c) => c.name(),
        }
    }

    /// How the workers' values for the column are combined: the step number
    /// is taken from the first worker, a quantity as the quantity says.
    pub open spec fn spec_operation(self) -> Operation {
        match self {
            OutputSpec::Step => Operation::First,
            OutputSpec::Compute(_) => Operation::Sum,
        }
    }

    /// How the workers' values for the column are combined.
    pub fn operation(&self) -> (o: Operation)
        ensures
            o == self.spec_operation(),
    {
        match self {
            OutputSpec::Step => Operation::First,
            OutputSpec::Compute(c) => c.op(),
        }
    }
}

/// The output of a run: which columns, and every how many steps.
pub struct Output {
    pub every: usize,
    pub values: Vec<OutputSpec>,
}

impl Output {
    /// No columns, every hundredth step.
    pub fn new() -> (o: Self)
        ensures
            o.every == 100,
            o.values@.len() == 0,
    {
        Output { every: 100, values: Vec::new() }
    }

    /// Whether a row is written at `step`: on the multiples of `every`.
    pub fn is_due(&self, step: usize) -> (b: bool)
        requires
            self.every > 0,
        ensures
            b == (step % self.every == 0),
    {
        step % self.every == 0
    }
}

/// Whether `acc` is what comes of combining the first `n` values from the
/// left: the first value alone, or what `combine` made of the result for the
/// values before and the `n`-th value.
pub open spec fn spec_folded<V, F: Fn(V, V) -> V>(combine: F, values: Seq<V>, n: int, acc: V) -> bool
    decreases n,
{
    if n <= 1 {
        acc == values[0]
    } else {
        exists|prev: V|
            #![trigger call_ensures(combine, (prev, values[n - 1]), acc)]
            spec_folded(combine, values, n - 1, prev) && call_ensures(
                combine,
                (prev, values[n - 1]),
                acc,
            )
    }
}

/// Combining the result for the first `n` values with the next value gives a
/// result for the first `n + 1` values.
pub proof fn lemma_fold_step<V, F: Fn(V, V) -> V>(
    combine: F,
    values: Seq<V>,
    n: int,
    prev: V,
    acc: V,
)
    requires
        1 <= n < values.len(),
        spec_folded(combine, values, n, prev),
        call_ensures(combine, (prev, values[n]), acc),
    ensures
        spec_folded(combine, values, n + 1, acc),
{
    let m = n + 1;
    assert(m - 1 == n);
    assert(spec_folded(combine, values, m - 1, prev));
    assert(call_ensures(combine, (prev, values[m - 1]), acc));
    assert(spec_folded(combine, values, m, acc));
}

/// What combining comes to for two workers: the result is what `combine`
/// made of the value of the first worker and the value of the second.
pub proof fn lemma_fold_two<V, F: Fn(V, V) -> V>(combine: F, values: Seq<V>, acc: V)
    requires
        values.len() == 2,
        spec_folded(combine, values, 2, acc),
    ensures
        call_ensures(combine, (values[0], values[1]), acc),
{
    let prev = choose|prev: V|
        spec_folded(combine, values, 2 - 1, prev) && #[trigger] call_ensures(
            combine,
            (prev, values[2 - 1]),
            acc,
        );
    assert(spec_folded(combine, values, 1, prev));
    assert(prev == values[0]);
}

/// The value of a column for the whole simulation, from the values of the
/// workers, first worker first. `First` takes the value of the first worker
/// and never combines; every other operation combines the values from the
/// left with `combine`, which the caller picks to match the operation.
pub fn reduce<V: Copy, F: Fn(V, V) -> V>(op: Operation, values: &Vec<V>, combine: F) -> (r: V)
    requires
        values@.len() > 0,
        forall|a: V, b: V| call_requires(combine, (a, b)),
    ensures
        op == Operation::First ==> r == values@[0],
        op != Operation::First ==> spec_folded(combine, values@, values@.len() as int, r),
{
    let mut acc: V = values[0];
    match op {
        Operation::First => acc,
        _ => {
            let mut k: usize = 1;
            while k < values.len()
                invariant
                    1 <= k <= values@.len(),
                    forall|a: V, b: V| call_requires(combine, (a, b)),
                    spec_folded(combine, values@, k as int, acc),
                decreases values@.len() - k,
            {
                let ghost prev = acc;
                acc = combine(acc, values[k]);
                proof {
                    lemma_fold_step(combine, values@, k as int, prev, acc);
                }
                k += 1;
            }
            acc
        },
    }
}

/// The position of the first compute registered under `key`, if there is
/// one.
pub open spec fn spec_registered(key: Seq<char>, computes: &KeyedVec<String, Compute>) -> Option<
    int,
> {
    if exists|i: int| 0 <= i < computes.spec_keys().len() && computes.spec_keys()[i]@ == key {
        Some(
            choose|i: int|
                0 <= i < computes.spec_keys().len() && computes.spec_keys()[i]@ == key && forall|
                    k: int,
                |
                    0 <= k < i ==> computes.spec_keys()[k]@ != key,
        )
    } else {
        None
    }
}

/// The column that `key` names: the step number for `step`, else the
/// compute registered under `key`; nothing where there is none.
pub open spec fn spec_column(key: Seq<char>, computes: &KeyedVec<String, Compute>) -> Option<
    OutputSpec,
> {
    if key == "step"@ {
        Some(OutputSpec::Step)
    } else {
        match spec_registered(key, computes) {
            Some(i) => Some(OutputSpec::Compute(computes.spec_values()[i])),
            None => None,
        }
    }
}

/// The column that `key` names, or an error where it names none.
pub fn resolve_column(key: &String, computes: &KeyedVec<String, Compute>) -> (r: Result<
    OutputSpec,
    KeyError,
>)
    requires
        computes.wf(),
    ensures
        match spec_column(key@, computes) {
            Some(column) => r matches Ok(c) && c == column,
            None => r is Err,
        },
{
    let step: String = String::from_str("step");
    if *key == step {
        return Ok(OutputSpec::Step);
    }
    let names: &Vec<String> = computes.keys();
    let mut i: usize = 0;
    while i < names.len()
        invariant
            i <= names@.len(),
            computes.wf(),
            key@ != "step"@,
            names@ == computes.spec_keys(),
            forall|k: int| 0 <= k < i ==> names@[k]@ != key@,
        decreases names@.len() - i,
    {
        if names[i] == *key {
            proof {
                let keys = computes.spec_keys();
                assert(keys[i as int]@ == key@);
                let first = choose|c: int|
                    0 <= c < keys.len() && keys[c]@ == key@ && forall|k: int|
                        0 <= k < c ==> keys[k]@ != key@;
                assert(first == i);
                assert(spec_registered(key@, computes) == Some(i as int));
            }
            return Ok(OutputSpec::Compute(*computes.index(i)));
        }
        i += 1;
    }
    Err(KeyError {  })
}

/// The columns that `keys` name, in the same order, or an error where one of
/// them names none.
pub fn resolve_columns(keys: &Vec<String>, computes: &KeyedVec<String, Compute>) -> (r: Result<
    Vec<OutputSpec>,
    KeyError,
>)
    requires
        computes.wf(),
    ensures
        r is Ok <==> forall|k: int|
            0 <= k < keys@.len() ==> spec_column(#[trigger] keys@[k]@, computes) is Some,
        r matches Ok(columns) ==> columns@.len() == keys@.len() && forall|k: int|
            0 <= k < keys@.len() ==> spec_column(keys@[k]@, computes) == Some(
                #[trigger] columns@[k],
            ),
{
    let mut columns: Vec<OutputSpec> = Vec::new();
    let mut k: usize = 0;
    while k < keys.len()
        invariant
            k <= keys@.len(),
            computes.wf(),
            columns@.len() == k,
            forall|p: int|
                0 <= p < k ==> spec_column(keys@[p]@, computes) == Some(#[trigger] columns@[p]),
        decreases keys@.len() - k,
    {
        match resolve_column(&keys[k], computes) {
            Ok(column) => {
                columns.push(column);
            },
            Err(e) => {
                assert(spec_column(keys@[k as int]@, computes) is None);
                return Err(e);
            },
        }
        k += 1;
    }
    assert forall|p: int| 0 <= p < keys@.len() implies spec_column(
        #[trigger] keys@[p]@,
        computes,
    ) is Some by {
        assert(spec_column(keys@[p]@, computes) == Some(columns@[p]));
    }
    Ok(columns)
}

} // verus!
