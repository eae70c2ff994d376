//! Decisions of the statistical aggregation over benchmark runs.
//!
//! Means, deviations and intervals are float arithmetic; which values take
//! part, how many are N/A, which critical value the interval uses, where the
//! median sits and which runs are flagged are decided here.

use vstd::prelude::*;

verus! {

/// The values that are present, in order.
pub open spec fn present<T>(values: Seq<Option<T>>) -> Seq<T>
    decreases values.len(),
{
    if values.len() == 0 {
        Seq::empty()
    } else {
        let rest = present(values.drop_last());
        match values.last() {
            Some(v) => rest.push(v),
            None => rest,
        }
    }
}

/// The number of N/A values.
pub open spec fn absent_count<T>(values: Seq<Option<T>>) -> nat
    decreases values.len(),
{
    if values.len() == 0 {
        0
    } else {
        absent_count(values.drop_last()) + if values.last() is None {
            1nat
        } else {
            0nat
        }
    }
}

proof fn lemma_present_and_absent<T>(values: Seq<Option<T>>)
    ensures
        present(values).len() + absent_count(values) == values.len(),
    decreases values.len(),
{
    if values.len() > 0 {
        lemma_present_and_absent(values.drop_last());
    }
}

/// Law: the present values are the input's `Some` entries, unwrapped, in
/// input order, and the N/A count is the number of its `None` entries.
pub proof fn lemma_present_is_filter<T>(values: Seq<Option<T>>)
    ensures
        present(values) == values.filter(|o: Option<T>| o is Some).map_values(
            |o: Option<T>| o->0,
        ),
        absent_count(values) == values.filter(|o: Option<T>| o is None).len(),
    decreases values.len(),
{
    reveal(Seq::filter);
    if values.len() > 0 {
        lemma_present_is_filter(values.drop_last());
        let f = values.filter(|o: Option<T>| o is Some);
        let g = values.drop_last().filter(|o: Option<T>| o is Some);
        let fa = values.filter(|o: Option<T>| o is None);
        let ga = values.drop_last().filter(|o: Option<T>| o is None);
        if values.last() is Some {
            assert(f == g.push(values.last()));
            assert(fa == ga);
            assert(f.map_values(|o: Option<T>| o->0) =~= g.map_values(|o: Option<T>| o->0).push(
                values.last()->0,
            ));
        } else {
            assert(f == g);
            assert(fa == ga.push(values.last()));
        }
    } else {
        assert(values.filter(|o: Option<T>| o is Some).map_values(|o: Option<T>| o->0)
            =~= Seq::<T>::empty());
    }
}

/// The values that take part in a summary and the number of N/A values.
pub struct Included<T> {
    /// The present values, in order.
    pub values: Vec<T>,
    /// How many values were N/A.
    pub n_na: usize,
}

/// Separates the present values from the N/A ones: N/A values are excluded
/// but counted, and every value is one or the other.
pub fn include_present<T: Copy>(values: &[Option<T>]) -> (inc: Included<T>)
    ensures
        inc.values@ == present(values@),
        inc.n_na == absent_count(values@),
        inc.values@ == values@.filter(|o: Option<T>| o is Some).map_values(|o: Option<T>| o->0),
        inc.n_na == values@.filter(|o: Option<T>| o is None).len(),
        inc.values@.len() + inc.n_na == values@.len(),
{
    let mut included: Vec<T> = Vec::new();
    let mut n_na: usize = 0;
    let mut i: usize = 0;
    while i < values.len()
        invariant
            i <= values@.len(),
            included@ == present(values@.take(i as int)),
            n_na == absent_count(values@.take(i as int)),
            included@.len() + n_na == i,
        decreases values@.len() - i,
    {
        assert(values@.take(i + 1).drop_last() =~= values@.take(i as int));
        assert(values@.take(i + 1).last() == values@[i as int]);
        proof {
            lemma_present_and_absent(values@.take(i as int));
        }
        match values[i] {
            Some(v) => {
                included.push(v);
            },
            None => {
                n_na = n_na + 1;
            },
        }
        i = i + 1;
    }
    assert(values@.take(values@.len() as int) =~= values@);
    proof {
        lemma_present_is_filter(values@);
    }
    Included { values: included, n_na }
}

/// The critical value of a two-sided 95% confidence interval.
#[derive(Clone, Copy, Debug, PartialEq, Eq, Structural)]
pub enum CriticalValue {
    /// The 0.975 quantile of Student's t distribution with these degrees of
    /// freedom.
    StudentT { degrees_of_freedom: usize },
    /// The normal approximation, z = 1.96.
    Normal,
}

/// Chooses the critical value for `n` included values: Student's t with
/// n - 1 degrees of freedom when that is between 1 and 29, else the normal
/// approximation.
pub fn critical_value(n: usize) -> (c: CriticalValue)
    requires
        n >= 1,
    ensures
        1 <= n - 1 < 30 ==> c == (CriticalValue::StudentT { degrees_of_freedom: (n - 1) as usize }),
        !(1 <= n - 1 < 30) ==> c == CriticalValue::Normal,
{
    let df = n - 1;
    if df >= 1 && df < 30 {
        CriticalValue::StudentT { degrees_of_freedom: df }
    } else {
        CriticalValue::Normal
    }
}

/// What a summary of `n` included values reports.
#[derive(Clone, Copy, Debug, PartialEq, Eq, Structural)]
pub enum SummaryShape {
    /// No value: mean, deviation and interval are N/A.
    Empty,
    /// One value: the mean, a deviation of 0, and an interval of width 0.
    Single,
    /// Several values: mean, sample deviation, and a 95% interval with this
    /// critical value.
    Spread { critical: CriticalValue },
}

/// Decides what the summary of `n` included values reports: the interval
/// uses Student's t (n - 1 degrees of freedom) for fewer than 30 values and
/// the normal approximation for 30 or more.
pub fn summary_shape(n: usize) -> (s: SummaryShape)
    ensures
        n == 0 ==> s is Empty,
        n == 1 ==> s is Single,
        n >= 2 ==> s == (SummaryShape::Spread {
            critical: if n < 30 {
                CriticalValue::StudentT { degrees_of_freedom: (n - 1) as usize }
            } else {
                CriticalValue::Normal
            },
        }),
{
    if n == 0 {
        SummaryShape::Empty
    } else if n == 1 {
        SummaryShape::Single
    } else {
        let critical = if n < 30 {
            critical_value(n)
        } else {
            CriticalValue::Normal
        };
        SummaryShape::Spread { critical }
    }
}

/// Cohen's d needs at least two values in each group (the sample variances
/// divide by one less than the group's size).
pub fn effect_size_defined(len_a: usize, len_b: usize) -> (b: bool)
    ensures
        b <==> len_a >= 2 && len_b >= 2,
{
    len_a >= 2 && len_b >= 2
}

/// Outlier screening needs at least three values.
pub fn outlier_screen_applies(n: usize) -> (b: bool)
    ensures
        b <==> n >= 3,
{
    n >= 3
}

/// The positions in a sorted sequence of `n` values whose average is the
/// median: the middle one twice for odd `n`, the two middle ones for even `n`.
pub fn median_positions(n: usize) -> (p: (usize, usize))
    requires
        n >= 1,
    ensures
        n % 2 == 1 ==> p.0 == n / 2 && p.1 == n / 2,
        n % 2 == 0 ==> p.0 == n / 2 - 1 && p.1 == n / 2,
        p.0 <= p.1 < n,
        p.0 + p.1 == n - 1,
{
    if n % 2 == 0 {
        (n / 2 - 1, n / 2)
    } else {
        (n / 2, n / 2)
    }
}

/// The positions whose flag is set, in increasing order.
pub fn flagged_positions(flags: &[bool]) -> (ps: Vec<usize>)
    ensures
        forall|i: int| 0 <= i < ps@.len() ==> #[trigger] ps@[i] < flags@.len() && flags@[ps@[i] as int],
        forall|i: int, j: int| 0 <= i < j < ps@.len() ==> #[trigger] ps@[i] < #[trigger] ps@[j],
        forall|k: int| 0 <= k < flags@.len() && #[trigger] flags@[k] ==> ps@.contains(k as usize),
{
    let mut ps: Vec<usize> = Vec::new();
    let mut i: usize = 0;
    while i < flags.len()
        invariant
            i <= flags@.len(),
            forall|m: int| 0 <= m < ps@.len() ==> #[trigger] ps@[m] < i && flags@[ps@[m] as int],
            forall|m: int, j: int| 0 <= m < j < ps@.len() ==> #[trigger] ps@[m] < #[trigger] ps@[j],
            forall|k: int| 0 <= k < i && #[trigger] flags@[k] ==> ps@.contains(k as usize),
        decreases flags@.len() - i,
    {
        if flags[i] {
            let ghost before = ps@;
            ps.push(i);
            proof {
                assert forall|k: int| 0 <= k < i + 1 && #[trigger] flags@[k] implies ps@.contains(
                    k as usize,
                ) by {
                    if k < i {
                        let w = choose|w: int| 0 <= w < before.len() && before[w] == k as usize;
                        assert(ps@[w] == k as usize);
                    } else {
                        assert(ps@[before.len() as int] == i);
                    }
                }
            }
        }
        i = i + 1;
    }
    ps
}

} // verus!
