//! Decisions of the Stress Resilience Index (SRI).
//!
//! The SRI combines the five behavioral proxies by a geometric mean. Which
//! result a set of proxy readings gets (not available, zero, or a computed
//! mean) is decided here; the arithmetic of the mean itself works on floats.

use vstd::prelude::*;
use crate::text::{debug_list, debug_list_string};

verus! {

/// One of the five behavioral proxies that the SRI combines.
#[derive(Clone, Copy, Debug, PartialEq, Eq, Structural)]
pub enum Proxy {
    /// Graceful Degradation Score.
    Gds,
    /// Autonomous Recovery Rate.
    Arr,
    /// Isolation Survival Time.
    Ist,
    /// Resource Efficiency under Constraint.
    Rec,
    /// Cascading Failure Resistance.
    Cfr,
}

impl Proxy {
    /// The key under which the proxy is reported.
    pub open spec fn label(self) -> Seq<char> {
        match self {
            Proxy::Gds => "gds"@,
            Proxy::Arr => "arr"@,
            Proxy::Ist => "ist"@,
            Proxy::Rec => "rec"@,
            Proxy::Cfr => "cfr"@,
        }
    }

    /// The key under which the proxy is reported ("gds", "arr", ...).
    pub fn name(&self) -> (s: &'static str)
        ensures
            s@ == self.label(),
    {
        match self {
            Proxy::Gds => "gds",
            Proxy::Arr => "arr",
            Proxy::Ist => "ist",
            Proxy::Rec => "rec",
            Proxy::Cfr => "cfr",
        }
    }
}

/// The proxies the SRI requires, in the order in which they are checked and
/// reported.
pub open spec fn required_order() -> Seq<Proxy> {
    seq![Proxy::Gds, Proxy::Arr, Proxy::Ist, Proxy::Rec, Proxy::Cfr]
}

/// The required proxies, in order: gds, arr, ist, rec, cfr.
pub fn required_proxies() -> (ps: Vec<Proxy>)
    ensures
        ps@ == required_order(),
{
    let mut ps: Vec<Proxy> = Vec::new();
    ps.push(Proxy::Gds);
    ps.push(Proxy::Arr);
    ps.push(Proxy::Ist);
    ps.push(Proxy::Rec);
    ps.push(Proxy::Cfr);
    assert(ps@ =~= required_order());
    ps
}

/// What a set of proxy values holds for one proxy.
#[derive(Clone, Copy, Debug, PartialEq, Eq, Structural)]
pub enum ProxyReading {
    /// The proxy has no entry at all.
    Missing,
    /// The proxy has an entry whose value is N/A.
    NotAvailable,
    /// The proxy's value is exactly zero.
    Zero,
    /// The proxy has a value other than zero.
    NonZero,
}

/// The reading of one proxy's entry: no entry, an N/A entry, or a value
/// given by its order key, which is zero exactly when it equals `zero_key`.
pub fn read_proxy(entry: Option<Option<u64>>, zero_key: u64) -> (r: ProxyReading)
    ensures
        r == match entry {
            None => ProxyReading::Missing,
            Some(None) => ProxyReading::NotAvailable,
            Some(Some(k)) => if k == zero_key {
                ProxyReading::Zero
            } else {
                ProxyReading::NonZero
            },
        },
{
    match entry {
        None => ProxyReading::Missing,
        Some(None) => ProxyReading::NotAvailable,
        Some(Some(k)) => if k == zero_key {
            ProxyReading::Zero
        } else {
            ProxyReading::NonZero
        },
    }
}

/// The reading of each of the five proxies.
#[derive(Clone, Copy, Debug, PartialEq, Eq, Structural)]
pub struct ProxyReadings {
    pub gds: ProxyReading,
    pub arr: ProxyReading,
    pub ist: ProxyReading,
    pub rec: ProxyReading,
    pub cfr: ProxyReading,
}

impl ProxyReadings {
    /// The reading of proxy `p`.
    pub open spec fn at(self, p: Proxy) -> ProxyReading {
        match p {
            Proxy::Gds => self.gds,
            Proxy::Arr => self.arr,
            Proxy::Ist => self.ist,
            Proxy::Rec => self.rec,
            Proxy::Cfr => self.cfr,
        }
    }

    /// The reading of proxy `p`.
    pub fn reading(&self, p: Proxy) -> (r: ProxyReading)
        ensures
            r == self.at(p),
            p == Proxy::Gds ==> r == self.gds,
            p == Proxy::Arr ==> r == self.arr,
            p == Proxy::Ist ==> r == self.ist,
            p == Proxy::Rec ==> r == self.rec,
            p == Proxy::Cfr ==> r == self.cfr,
    {
        match p {
            Proxy::Gds => self.gds,
            Proxy::Arr => self.arr,
            Proxy::Ist => self.ist,
            Proxy::Rec => self.rec,
            Proxy::Cfr => self.cfr,
        }
    }
}

/// The proxies of `ps` whose reading is `state`, in the order of `ps`.
pub open spec fn with_reading(ps: Seq<Proxy>, r: ProxyReadings, state: ProxyReading) -> Seq<Proxy>
    decreases ps.len(),
{
    if ps.len() == 0 {
        Seq::empty()
    } else {
        let rest = with_reading(ps.drop_last(), r, state);
        if r.at(ps.last()) == state {
            rest.push(ps.last())
        } else {
            rest
        }
    }
}

/// The labels of the proxies.
pub open spec fn labels(ps: Seq<Proxy>) -> Seq<Seq<char>> {
    ps.map_values(|p: Proxy| p.label())
}

/// Required proxies with no entry.
pub open spec fn missing_proxies(r: ProxyReadings) -> Seq<Proxy> {
    with_reading(required_order(), r, ProxyReading::Missing)
}

/// Required proxies whose value is N/A.
pub open spec fn unavailable_proxies(r: ProxyReadings) -> Seq<Proxy> {
    with_reading(required_order(), r, ProxyReading::NotAvailable)
}

/// Some required proxy reads zero.
pub open spec fn has_zero_proxy(r: ProxyReadings) -> bool {
    exists|i: int| 0 <= i < 5 && r.at(#[trigger] required_order()[i]) == ProxyReading::Zero
}

/// Every required proxy has a value.
pub open spec fn all_proxies_usable(r: ProxyReadings) -> bool {
    forall|i: int|
        0 <= i < 5 ==> {
            let s = r.at(#[trigger] required_order()[i]);
            s == ProxyReading::Zero || s == ProxyReading::NonZero
        }
}

/// The unweighted SRI of these readings is zero: every proxy has a value
/// and one of them is zero.
pub open spec fn sri_is_zero(r: ProxyReadings) -> bool {
    missing_proxies(r).len() == 0 && unavailable_proxies(r).len() == 0 && has_zero_proxy(r)
}

/// What the SRI of a set of proxy readings is.
#[derive(Debug)]
pub enum SriDecision {
    /// The SRI is N/A, for the given reason.
    NotAvailable { reason: String },
    /// Some proxy is zero, so the SRI is 0.
    Zero,
    /// The SRI is the geometric mean of the five proxy values, times 100.
    GeometricMean,
}

impl SriDecision {
    /// The reason of an N/A decision.
    pub open spec fn reason(self) -> Option<Seq<char>> {
        match self {
            SriDecision::NotAvailable { reason } => Some(reason@),
            _ => None,
        }
    }
}

/// The reason given when proxies have no entry.
pub open spec fn missing_reason(r: ProxyReadings) -> Seq<char> {
    "missing proxies: "@ + debug_list(labels(missing_proxies(r)))
}

/// The reason given when proxies are N/A.
pub open spec fn unavailable_reason(r: ProxyReadings) -> Seq<char> {
    "SRI N/A because proxies N/A: "@ + debug_list(labels(unavailable_proxies(r)))
}

/// The names of the required proxies whose reading is `state`.
fn names_with_reading(r: &ProxyReadings, state: ProxyReading) -> (names: Vec<&'static str>)
    ensures
        names@.map_values(|n: &str| n@) == labels(with_reading(required_order(), *r, state)),
{
    let ps = required_proxies();
    let mut names: Vec<&'static str> = Vec::new();
    let mut i: usize = 0;
    while i < ps.len()
        invariant
            ps@ == required_order(),
            i <= ps@.len(),
            names@.map_values(|n: &str| n@) == labels(with_reading(ps@.take(i as int), *r, state)),
        decreases ps@.len() - i,
    {
        let p = ps[i];
        let ghost before = names@;
        assert(ps@.take(i + 1).drop_last() =~= ps@.take(i as int));
        assert(ps@.take(i + 1).last() == p);
        if r.reading(p) == state {
            names.push(p.name());
            assert(names@.map_values(|n: &str| n@) =~= before.map_values(|n: &str| n@).push(
                p.label(),
            ));
            assert(labels(with_reading(ps@.take(i + 1), *r, state)) =~= labels(
                with_reading(ps@.take(i as int), *r, state),
            ).push(p.label()));
        }
        i = i + 1;
    }
    assert(ps@.take(5) =~= ps@);
    names
}

/// Decides the unweighted SRI of a set of proxy readings.
///
/// Missing proxies are reported first, then proxies that are N/A; with every
/// proxy present, a zero proxy makes the SRI zero (the geometric mean lets no
/// strong proxy hide a collapsed one); otherwise the mean is computed.
pub fn decide_sri(readings: &ProxyReadings) -> (d: SriDecision)
    ensures
        missing_proxies(*readings).len() > 0 ==> d.reason() == Some(missing_reason(*readings)),
        missing_proxies(*readings).len() == 0 && unavailable_proxies(*readings).len() > 0
            ==> d.reason() == Some(unavailable_reason(*readings)),
        missing_proxies(*readings).len() == 0 && unavailable_proxies(*readings).len() == 0
            ==> (d is Zero <==> has_zero_proxy(*readings)) && (d is GeometricMean
            <==> !has_zero_proxy(*readings)),
        d is Zero <==> sri_is_zero(*readings),
        d is Zero <==> all_entries_have_values(*readings) && some_entry_zero(*readings),
        d is NotAvailable <==> !all_entries_have_values(*readings),
{
    proof {
        lemma_sri_decided_by_entries(*readings, true);
    }
    let missing = names_with_reading(readings, ProxyReading::Missing);
    if missing.len() > 0 {
        let mut reason = String::from_str("missing proxies: ");
        let list = debug_list_string(&missing);
        reason.append(list.as_str());
        return SriDecision::NotAvailable { reason };
    }
    let unavailable = names_with_reading(readings, ProxyReading::NotAvailable);
    if unavailable.len() > 0 {
        let mut reason = String::from_str("SRI N/A because proxies N/A: ");
        let list = debug_list_string(&unavailable);
        reason.append(list.as_str());
        return SriDecision::NotAvailable { reason };
    }
    assert(labels(missing_proxies(*readings)).len() == 0);
    assert(labels(unavailable_proxies(*readings)).len() == 0);
    let ps = required_proxies();
    let mut i: usize = 0;
    while i < ps.len()
        invariant
            ps@ == required_order(),
            i <= 5,
            missing_proxies(*readings).len() == 0,
            unavailable_proxies(*readings).len() == 0,
            forall|m: int| 0 <= m < i ==> readings.at(#[trigger] required_order()[m])
                != ProxyReading::Zero,
        decreases 5 - i,
    {
        if readings.reading(ps[i]) == ProxyReading::Zero {
            assert(readings.at(required_order()[i as int]) == ProxyReading::Zero);
            proof {
                lemma_sri_decided_by_entries(*readings, true);
            }
            return SriDecision::Zero;
        }
        i = i + 1;
    }
    SriDecision::GeometricMean
}

/// The reading leaves the proxy without a value.
pub open spec fn is_unusable(s: ProxyReading) -> bool {
    s == ProxyReading::Missing || s == ProxyReading::NotAvailable
}

/// The first proxy of `ps` that has no value, if any.
pub open spec fn first_unusable(ps: Seq<Proxy>, r: ProxyReadings) -> Option<Proxy>
    decreases ps.len(),
{
    if ps.len() == 0 {
        None
    } else {
        match first_unusable(ps.drop_last(), r) {
            Some(p) => Some(p),
            None => if is_unusable(r.at(ps.last())) {
                Some(ps.last())
            } else {
                None
            },
        }
    }
}

/// The reason the weighted SRI gives for a proxy without a value.
pub open spec fn unusable_reason(p: Proxy, s: ProxyReading) -> Seq<char> {
    if s == ProxyReading::Missing {
        "missing proxy: "@ + p.label()
    } else {
        p.label() + " is N/A"@
    }
}

/// The weighted SRI of these readings is zero: every proxy has a value, the
/// weights are balanced, and one proxy is zero.
pub open spec fn weighted_sri_is_zero(r: ProxyReadings, weights_balanced: bool) -> bool {
    first_unusable(required_order(), r) is None && weights_balanced && has_zero_proxy(r)
}

/// What the weighted SRI of a set of proxy readings is.
#[derive(Debug)]
pub enum WeightedSriDecision {
    /// The weighted SRI is N/A, for the given reason.
    NotAvailable { reason: String },
    /// The profile's weights of the five proxies do not sum to 1 (within 0.01).
    UnbalancedWeights,
    /// Some proxy is zero, so the weighted SRI is 0.
    Zero,
    /// The weighted SRI is the weighted geometric mean of the proxies, times 100.
    WeightedGeometricMean,
}

impl WeightedSriDecision {
    /// The reason of an N/A decision.
    pub open spec fn reason(self) -> Option<Seq<char>> {
        match self {
            WeightedSriDecision::NotAvailable { reason } => Some(reason@),
            _ => None,
        }
    }
}

proof fn lemma_first_unusable_extends(ps: Seq<Proxy>, r: ProxyReadings, k: int)
    requires
        0 <= k <= ps.len(),
        first_unusable(ps.take(k), r) is Some,
    ensures
        first_unusable(ps, r) == first_unusable(ps.take(k), r),
    decreases ps.len() - k,
{
    if k < ps.len() {
        assert(ps.take(k + 1).drop_last() =~= ps.take(k));
        lemma_first_unusable_extends(ps, r, k + 1);
    } else {
        assert(ps.take(k) =~= ps);
    }
}

/// Decides the weighted SRI of a set of proxy readings.
///
/// `weights_balanced` tells whether the profile's weights of the five
/// proxies sum to 1 within 0.01. The proxies are checked in order, and the
/// first without a value makes the result N/A; then unbalanced weights are
/// refused; then a zero proxy makes the result zero.
pub fn decide_weighted_sri(readings: &ProxyReadings, weights_balanced: bool) -> (d: WeightedSriDecision)
    ensures
        match first_unusable(required_order(), *readings) {
            Some(p) => d.reason() == Some(unusable_reason(p, readings.at(p))),
            None => if !weights_balanced {
                d is UnbalancedWeights
            } else if has_zero_proxy(*readings) {
                d is Zero
            } else {
                d is WeightedGeometricMean
            },
        },
        d is Zero <==> weighted_sri_is_zero(*readings, weights_balanced),
        d is Zero <==> weights_balanced && all_entries_have_values(*readings) && some_entry_zero(
            *readings,
        ),
        d is NotAvailable <==> !all_entries_have_values(*readings),
{
    proof {
        lemma_sri_decided_by_entries(*readings, weights_balanced);
    }
    let ps = required_proxies();
    let mut i: usize = 0;
    while i < ps.len()
        invariant
            ps@ == required_order(),
            i <= 5,
            first_unusable(ps@.take(i as int), *readings) is None,
        decreases 5 - i,
    {
        let p = ps[i];
        assert(ps@.take(i + 1).drop_last() =~= ps@.take(i as int));
        assert(ps@.take(i + 1).last() == p);
        match readings.reading(p) {
            ProxyReading::Missing => {
                proof {
                    lemma_first_unusable_extends(ps@, *readings, i + 1);
                }
                let mut reason = String::from_str("missing proxy: ");
                reason.append(p.name());
                return WeightedSriDecision::NotAvailable { reason };
            },
            ProxyReading::NotAvailable => {
                proof {
                    lemma_first_unusable_extends(ps@, *readings, i + 1);
                }
                let mut reason = String::from_str(p.name());
                reason.append(" is N/A");
                return WeightedSriDecision::NotAvailable { reason };
            },
            _ => {},
        }
        i = i + 1;
    }
    assert(ps@.take(5) =~= ps@);
    if !weights_balanced {
        return WeightedSriDecision::UnbalancedWeights;
    }
    let mut i: usize = 0;
    while i < ps.len()
        invariant
            ps@ == required_order(),
            i <= 5,
            weights_balanced,
            first_unusable(required_order(), *readings) is None,
            forall|m: int| 0 <= m < i ==> readings.at(#[trigger] required_order()[m])
                != ProxyReading::Zero,
        decreases 5 - i,
    {
        if readings.reading(ps[i]) == ProxyReading::Zero {
            assert(readings.at(required_order()[i as int]) == ProxyReading::Zero);
            proof {
                lemma_sri_decided_by_entries(*readings, weights_balanced);
            }
            return WeightedSriDecision::Zero;
        }
        i = i + 1;
    }
    WeightedSriDecision::WeightedGeometricMean
}

proof fn lemma_unusable_found(ps: Seq<Proxy>, r: ProxyReadings)
    ensures
        (with_reading(ps, r, ProxyReading::Missing).len() > 0 || with_reading(
            ps,
            r,
            ProxyReading::NotAvailable,
        ).len() > 0) <==> first_unusable(ps, r) is Some,
    decreases ps.len(),
{
    if ps.len() > 0 {
        lemma_unusable_found(ps.drop_last(), r);
    }
}

/// Law: with balanced weights, the weighted SRI is N/A on exactly the
/// readings on which the unweighted SRI is N/A, and when neither is, both are
/// zero on exactly the same readings (those with a zero proxy).
pub proof fn lemma_weighted_and_unweighted_agree(r: ProxyReadings)
    ensures
        (missing_proxies(r).len() > 0 || unavailable_proxies(r).len() > 0) <==> first_unusable(
            required_order(),
            r,
        ) is Some,
        sri_is_zero(r) <==> weighted_sri_is_zero(r, true),
{
    lemma_unusable_found(required_order(), r);
}

/// Law: the reading of each proxy is that proxy's own entry.
pub proof fn lemma_readings_are_fields(r: ProxyReadings)
    ensures
        r.at(Proxy::Gds) == r.gds,
        r.at(Proxy::Arr) == r.arr,
        r.at(Proxy::Ist) == r.ist,
        r.at(Proxy::Rec) == r.rec,
        r.at(Proxy::Cfr) == r.cfr,
{
}

proof fn lemma_with_reading_none(ps: Seq<Proxy>, r: ProxyReadings, state: ProxyReading)
    ensures
        with_reading(ps, r, state).len() == 0 <==> forall|i: int|
            0 <= i < ps.len() ==> r.at(#[trigger] ps[i]) != state,
    decreases ps.len(),
{
    if ps.len() > 0 {
        let front = ps.drop_last();
        lemma_with_reading_none(front, r, state);
        if forall|i: int| 0 <= i < ps.len() ==> r.at(#[trigger] ps[i]) != state {
            assert forall|i: int| 0 <= i < front.len() implies r.at(#[trigger] front[i]) != state by {
                assert(front[i] == ps[i]);
            }
            assert(r.at(ps[ps.len() - 1]) != state);
        }
        if with_reading(ps, r, state).len() == 0 {
            assert forall|i: int| 0 <= i < ps.len() implies r.at(#[trigger] ps[i]) != state by {
                if i < ps.len() - 1 {
                    assert(front[i] == ps[i]);
                }
            }
        }
    }
}

proof fn lemma_first_unusable_none(ps: Seq<Proxy>, r: ProxyReadings)
    ensures
        first_unusable(ps, r) is None <==> forall|i: int|
            0 <= i < ps.len() ==> !is_unusable(r.at(#[trigger] ps[i])),
    decreases ps.len(),
{
    if ps.len() > 0 {
        let front = ps.drop_last();
        lemma_first_unusable_none(front, r);
        if forall|i: int| 0 <= i < ps.len() ==> !is_unusable(r.at(#[trigger] ps[i])) {
            assert forall|i: int| 0 <= i < front.len() implies !is_unusable(r.at(#[trigger] front[i])) by {
                assert(front[i] == ps[i]);
            }
            assert(!is_unusable(r.at(ps[ps.len() - 1])));
        }
        if first_unusable(ps, r) is None {
            assert forall|i: int| 0 <= i < ps.len() implies !is_unusable(r.at(#[trigger] ps[i])) by {
                if i < ps.len() - 1 {
                    assert(front[i] == ps[i]);
                }
            }
        }
    }
}

/// Every one of the five entries holds a value (zero or not).
pub open spec fn all_entries_have_values(r: ProxyReadings) -> bool {
    &&& (r.gds == ProxyReading::Zero || r.gds == ProxyReading::NonZero)
    &&& (r.arr == ProxyReading::Zero || r.arr == ProxyReading::NonZero)
    &&& (r.ist == ProxyReading::Zero || r.ist == ProxyReading::NonZero)
    &&& (r.rec == ProxyReading::Zero || r.rec == ProxyReading::NonZero)
    &&& (r.cfr == ProxyReading::Zero || r.cfr == ProxyReading::NonZero)
}

/// Some one of the five entries is zero.
pub open spec fn some_entry_zero(r: ProxyReadings) -> bool {
    r.gds == ProxyReading::Zero || r.arr == ProxyReading::Zero || r.ist == ProxyReading::Zero
        || r.rec == ProxyReading::Zero || r.cfr == ProxyReading::Zero
}

/// Law, over the five entries themselves: the SRI (weighted or not) is N/A
/// exactly when some entry is missing or N/A; when every entry holds a value,
/// it is zero exactly when some entry is zero (for the weighted SRI, with
/// balanced weights), so a present zero is never reported as N/A.
pub proof fn lemma_sri_decided_by_entries(r: ProxyReadings, balanced: bool)
    ensures
        (missing_proxies(r).len() > 0 || unavailable_proxies(r).len() > 0)
            <==> !all_entries_have_values(r),
        first_unusable(required_order(), r) is Some <==> !all_entries_have_values(r),
        sri_is_zero(r) <==> all_entries_have_values(r) && some_entry_zero(r),
        weighted_sri_is_zero(r, balanced) <==> balanced && all_entries_have_values(r)
            && some_entry_zero(r),
{
    let ps = required_order();
    lemma_with_reading_none(ps, r, ProxyReading::Missing);
    lemma_with_reading_none(ps, r, ProxyReading::NotAvailable);
    lemma_first_unusable_none(ps, r);
    assert(ps[0] == Proxy::Gds && ps[1] == Proxy::Arr && ps[2] == Proxy::Ist && ps[3] == Proxy::Rec
        && ps[4] == Proxy::Cfr);
    if all_entries_have_values(r) {
        assert forall|i: int| 0 <= i < ps.len() implies r.at(#[trigger] ps[i]) != ProxyReading::Missing
            && r.at(ps[i]) != ProxyReading::NotAvailable && !is_unusable(r.at(ps[i])) by {
            assert(i == 0 || i == 1 || i == 2 || i == 3 || i == 4);
        }
    } else {
        assert(is_unusable(r.at(ps[0])) || is_unusable(r.at(ps[1])) || is_unusable(r.at(ps[2]))
            || is_unusable(r.at(ps[3])) || is_unusable(r.at(ps[4])));
    }
    if some_entry_zero(r) {
        assert(r.at(ps[0]) == ProxyReading::Zero || r.at(ps[1]) == ProxyReading::Zero || r.at(ps[2])
            == ProxyReading::Zero || r.at(ps[3]) == ProxyReading::Zero || r.at(ps[4])
            == ProxyReading::Zero);
    }
    if has_zero_proxy(r) {
        let i = choose|i: int| 0 <= i < 5 && r.at(#[trigger] required_order()[i]) == ProxyReading::Zero;
        assert(i == 0 || i == 1 || i == 2 || i == 3 || i == 4);
    }
}

/// Law: the proxies reported with a reading are those of the given list
/// whose reading it is, in list order.
pub proof fn lemma_with_reading_is_filter(ps: Seq<Proxy>, r: ProxyReadings, state: ProxyReading)
    ensures
        with_reading(ps, r, state) == ps.filter(|p: Proxy| r.at(p) == state),
    decreases ps.len(),
{
    reveal(Seq::filter);
    if ps.len() > 0 {
        lemma_with_reading_is_filter(ps.drop_last(), r, state);
    }
}

/// Law: the first proxy without a value is the one at the earliest position
/// whose entry is missing or N/A; every proxy before it has a value.
pub proof fn lemma_first_unusable_is_earliest(ps: Seq<Proxy>, r: ProxyReadings)
    ensures
        first_unusable(ps, r) matches Some(p) ==> exists|i: int|
            0 <= i < ps.len() && ps[i] == p && is_unusable(r.at(p)) && forall|j: int|
                0 <= j < i ==> !is_unusable(r.at(#[trigger] ps[j])),
    decreases ps.len(),
{
    if ps.len() > 0 {
        let front = ps.drop_last();
        lemma_first_unusable_is_earliest(front, r);
        match first_unusable(front, r) {
            Some(p) => {
                let i = choose|i: int|
                    0 <= i < front.len() && front[i] == p && is_unusable(r.at(p)) && forall|j: int|
                        0 <= j < i ==> !is_unusable(r.at(#[trigger] front[j]));
                assert(ps[i] == p);
                assert forall|j: int| 0 <= j < i implies !is_unusable(r.at(#[trigger] ps[j])) by {
                    assert(front[j] == ps[j]);
                }
            },
            None => {
                lemma_first_unusable_none(front, r);
                if first_unusable(ps, r) is Some {
                    let i = ps.len() - 1;
                    assert forall|j: int| 0 <= j < i implies !is_unusable(r.at(#[trigger] ps[j])) by {
                        assert(front[j] == ps[j]);
                    }
                }
            },
        }
    }
}

} // verus!
