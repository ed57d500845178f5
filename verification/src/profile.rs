//! The CEFR learner profile: how a model-proposed patch is merged into the
//! stored profile.
//!
//! Confidences are IEEE-754 single-precision numbers; the library holds
//! their bit patterns (`f32::to_bits`) and clamps them on those bits.

use vstd::prelude::*;
use crate::text::{
    compact, eq_ignore_ascii_case, compact_chars, chars_of, string_of,
    eq_ignore_ascii_case_chars, str_eq,
};

verus! {

/// A CEFR level, or too little evidence to tell.
#[derive(Clone, Copy, PartialEq, Eq, Structural, Debug)]
pub enum CefrLevel {
    A1,
    A2,
    B1,
    B2,
    C1,
    C2,
    InsufficientEvidence,
}

/// A skill the profile tracks.
#[derive(Clone, Copy, PartialEq, Eq, Structural, Debug)]
pub enum Dimension {
    Reading,
    Vocabulary,
    Grammar,
    Pragmatics,
}

/// A UTC instant: seconds since the Unix epoch and the nanoseconds within
/// that second.
#[derive(Clone, Copy, PartialEq, Eq, Structural, Debug)]
pub struct Timestamp {
    pub secs: i64,
    pub nanos: u32,
}

/// `a` is strictly earlier than `b`.
pub open spec fn earlier(a: Timestamp, b: Timestamp) -> bool {
    a.secs < b.secs || (a.secs == b.secs && a.nanos < b.nanos)
}

fn is_earlier(a: Timestamp, b: Timestamp) -> (r: bool)
    ensures
        r == earlier(a, b),
{
    a.secs < b.secs || (a.secs == b.secs && a.nanos < b.nanos)
}

/// `f32::clamp(0.0, 1.0)` on the bit pattern of an `f32`: NaN and values in
/// range (including -0.0) stay as they are, values below zero become 0.0 and
/// values above one become 1.0.
pub open spec fn clamp_unit(bits: u32) -> u32 {
    let negative = bits >= 0x8000_0000u32;
    let magnitude = if negative {
        bits - 0x8000_0000u32
    } else {
        bits as int
    };
    if magnitude > 0x7F80_0000 {
        bits
    } else if negative && magnitude > 0 {
        0
    } else if !negative && bits > 0x3F80_0000u32 {
        0x3F80_0000
    } else {
        bits
    }
}

/// `f32::clamp(0.0, 1.0)` on the bit pattern of an `f32`.
pub fn clamp_unit_bits(bits: u32) -> (r: u32)
    ensures
        r == clamp_unit(bits),
{
    let negative = bits >= 0x8000_0000u32;
    let magnitude = if negative {
        bits - 0x8000_0000u32
    } else {
        bits
    };
    if magnitude > 0x7F80_0000u32 {
        bits
    } else if negative && magnitude > 0 {
        0
    } else if !negative && bits > 0x3F80_0000u32 {
        0x3F80_0000u32
    } else {
        bits
    }
}

/// A CEFR estimate with its confidence (as `f32` bits) and reasons.
pub struct CefrEstimate {
    pub level: CefrLevel,
    pub confidence_bits: u32,
    pub rationale: String,
}

/// The abstract value of a `CefrEstimate`.
pub struct CefrEstimateView {
    pub level: CefrLevel,
    pub confidence_bits: u32,
    pub rationale: Seq<char>,
}

impl View for CefrEstimate {
    type V = CefrEstimateView;

    open spec fn view(&self) -> CefrEstimateView {
        CefrEstimateView {
            level: self.level,
            confidence_bits: self.confidence_bits,
            rationale: self.rationale@,
        }
    }
}

/// The latest estimate for one dimension.
pub struct DimensionEstimate {
    pub dimension: Dimension,
    pub level: CefrLevel,
    pub confidence_bits: u32,
    pub evidence: String,
    pub updated_at: Timestamp,
}

/// The abstract value of a `DimensionEstimate`.
pub struct DimensionEstimateView {
    pub dimension: Dimension,
    pub level: CefrLevel,
    pub confidence_bits: u32,
    pub evidence: Seq<char>,
    pub updated_at: Timestamp,
}

impl View for DimensionEstimate {
    type V = DimensionEstimateView;

    open spec fn view(&self) -> DimensionEstimateView {
        DimensionEstimateView {
            dimension: self.dimension,
            level: self.level,
            confidence_bits: self.confidence_bits,
            evidence: self.evidence@,
            updated_at: self.updated_at,
        }
    }
}

/// A recurring observation of the learner.
pub struct ProfileObservation {
    pub dimension: Dimension,
    pub cefr_level: CefrLevel,
    pub descriptor: String,
    pub evidence: String,
    pub evidence_count: u32,
    pub first_seen_at: Timestamp,
    pub last_seen_at: Timestamp,
}

/// The abstract value of a `ProfileObservation`.
pub struct ObservationView {
    pub dimension: Dimension,
    pub cefr_level: CefrLevel,
    pub descriptor: Seq<char>,
    pub evidence: Seq<char>,
    pub evidence_count: u32,
    pub first_seen_at: Timestamp,
    pub last_seen_at: Timestamp,
}

impl View for ProfileObservation {
    type V = ObservationView;

    open spec fn view(&self) -> ObservationView {
        ObservationView {
            dimension: self.dimension,
            cefr_level: self.cefr_level,
            descriptor: self.descriptor@,
            evidence: self.evidence@,
            evidence_count: self.evidence_count,
            first_seen_at: self.first_seen_at,
            last_seen_at: self.last_seen_at,
        }
    }
}

/// The stored learner profile.
pub struct LearnerProfile {
    pub version: u32,
    pub updated_at: Timestamp,
    pub conversations_observed: u32,
    pub overall: CefrEstimate,
    pub dimensions: Vec<DimensionEstimate>,
    pub observations: Vec<ProfileObservation>,
    pub observed_session_ids: Vec<String>,
    pub processed_turn_ids: Vec<String>,
}

/// The abstract value of a `LearnerProfile`.
pub struct LearnerProfileView {
    pub version: u32,
    pub updated_at: Timestamp,
    pub conversations_observed: u32,
    pub overall: CefrEstimateView,
    pub dimensions: Seq<DimensionEstimateView>,
    pub observations: Seq<ObservationView>,
    pub observed_session_ids: Seq<Seq<char>>,
    pub processed_turn_ids: Seq<Seq<char>>,
}

/// The views of a list of strings.
pub open spec fn strings_view(v: Seq<String>) -> Seq<Seq<char>> {
    v.map_values(|s: String| s@)
}

/// The views of a list of dimension estimates.
pub open spec fn dimensions_view(v: Seq<DimensionEstimate>) -> Seq<DimensionEstimateView> {
    v.map_values(|d: DimensionEstimate| d@)
}

/// The views of a list of observations.
pub open spec fn observations_view(v: Seq<ProfileObservation>) -> Seq<ObservationView> {
    v.map_values(|o: ProfileObservation| o@)
}

impl View for LearnerProfile {
    type V = LearnerProfileView;

    open spec fn view(&self) -> LearnerProfileView {
        LearnerProfileView {
            version: self.version,
            updated_at: self.updated_at,
            conversations_observed: self.conversations_observed,
            overall: self.overall@,
            dimensions: dimensions_view(self.dimensions@),
            observations: observations_view(self.observations@),
            observed_session_ids: strings_view(self.observed_session_ids@),
            processed_turn_ids: strings_view(self.processed_turn_ids@),
        }
    }
}

/// A dimension estimate proposed by the model.
pub struct PatchDimension {
    pub dimension: Dimension,
    pub level: CefrLevel,
    pub confidence_bits: u32,
    pub evidence: String,
}

/// An observation proposed by the model.
pub struct PatchObservation {
    pub dimension: Dimension,
    pub cefr_level: CefrLevel,
    pub descriptor: String,
    pub evidence: String,
}

/// A profile update proposed by the model.
pub struct ProfilePatch {
    pub overall: CefrEstimate,
    pub dimensions: Vec<PatchDimension>,
    pub observations: Vec<PatchObservation>,
}

/// Observations last seen at `t`.
pub open spec fn seen_at(t: Timestamp) -> spec_fn(ObservationView) -> bool {
    |o: ObservationView| o.last_seen_at == t
}

/// No observation was last seen before a later one in the list.
pub open spec fn newest_first(s: Seq<ObservationView>) -> bool {
    forall|i: int, j: int|
        0 <= i < j < s.len() ==> !earlier(#[trigger] s[i].last_seen_at, #[trigger] s[j].last_seen_at)
}

/// `output` is `input` stably sorted newest first: sorted, and the
/// observations sharing a time keep their order
/// (`sort_by_key(|o| Reverse(o.last_seen_at))`).
pub open spec fn stably_newest_first(input: Seq<ObservationView>, output: Seq<ObservationView>) -> bool {
    &&& newest_first(output)
    &&& forall|t: Timestamp| #[trigger] output.filter(seen_at(t)) == input.filter(seen_at(t))
}

/// The stable newest-first sort of `s`.
pub open spec fn sort_newest_first(s: Seq<ObservationView>) -> Seq<ObservationView> {
    choose|t: Seq<ObservationView>| stably_newest_first(s, t)
}

proof fn lemma_filter_empty(s: Seq<ObservationView>, t: Timestamp)
    requires
        forall|i: int| 0 <= i < s.len() ==> s[i].last_seen_at != t,
    ensures
        s.filter(seen_at(t)) =~= Seq::<ObservationView>::empty(),
    decreases s.len(),
{
    reveal(Seq::filter);
    if s.len() > 0 {
        lemma_filter_empty(s.drop_last(), t);
    }
}

proof fn lemma_filter_head(s: Seq<ObservationView>, t: Timestamp)
    requires
        s.len() > 0,
    ensures
        s.filter(seen_at(t)) == (if s[0].last_seen_at == t {
            seq![s[0]]
        } else {
            Seq::<ObservationView>::empty()
        }) + s.drop_first().filter(seen_at(t)),
{
    assert(s == seq![s[0]] + s.drop_first());
    s.drop_first().lemma_filter_prepend(s[0], seen_at(t));
}

proof fn lemma_filter_has(s: Seq<ObservationView>, j: int)
    requires
        0 <= j < s.len(),
    ensures
        s.filter(seen_at(s[j].last_seen_at)).len() > 0,
    decreases s.len(),
{
    reveal(Seq::filter);
    let t = s[j].last_seen_at;
    if j < s.len() - 1 {
        lemma_filter_has(s.drop_last(), j);
    }
}

proof fn lemma_filter_member(s: Seq<ObservationView>, t: Timestamp, k: int)
    requires
        0 <= k < s.filter(seen_at(t)).len(),
    ensures
        exists|j: int| 0 <= j < s.len() && s[j] == s.filter(seen_at(t))[k] && s[j].last_seen_at == t,
    decreases s.len(),
{
    reveal(Seq::filter);
    let f = s.filter(seen_at(t));
    if s.len() > 0 {
        let rest = s.drop_last().filter(seen_at(t));
        if k < rest.len() {
            lemma_filter_member(s.drop_last(), t, k);
            let j = choose|j: int|
                0 <= j < s.drop_last().len() && s.drop_last()[j] == rest[k]
                    && s.drop_last()[j].last_seen_at == t;
            assert(s[j] == f[k]);
        } else {
            assert(s[s.len() - 1] == f[k]);
        }
    }
}

/// Two newest-first lists with the same observations at every time are the
/// same list.
proof fn lemma_sorted_unique(a: Seq<ObservationView>, b: Seq<ObservationView>)
    requires
        newest_first(a),
        newest_first(b),
        forall|t: Timestamp| #[trigger] a.filter(seen_at(t)) == b.filter(seen_at(t)),
    ensures
        a == b,
    decreases a.len() + b.len(),
{
    if a.len() == 0 && b.len() == 0 {
        assert(a =~= b);
        return;
    }
    if a.len() == 0 {
        lemma_filter_has(b, 0);
        lemma_filter_empty(a, b[0].last_seen_at);
        assert(a.filter(seen_at(b[0].last_seen_at)) == b.filter(seen_at(b[0].last_seen_at)));
        return;
    }
    if b.len() == 0 {
        lemma_filter_has(a, 0);
        lemma_filter_empty(b, a[0].last_seen_at);
        assert(a.filter(seen_at(a[0].last_seen_at)) == b.filter(seen_at(a[0].last_seen_at)));
        return;
    }
    let ta = a[0].last_seen_at;
    let tb = b[0].last_seen_at;
    assert(!earlier(ta, tb)) by {
        lemma_filter_has(b, 0);
        assert(a.filter(seen_at(tb)) == b.filter(seen_at(tb)));
        lemma_filter_member(a, tb, 0);
        let j = choose|j: int| 0 <= j < a.len() && a[j] == a.filter(seen_at(tb))[0] && a[j].last_seen_at == tb;
        if j > 0 {
            assert(!earlier(a[0].last_seen_at, a[j].last_seen_at));
        }
    }
    assert(!earlier(tb, ta)) by {
        lemma_filter_has(a, 0);
        assert(a.filter(seen_at(ta)) == b.filter(seen_at(ta)));
        lemma_filter_member(b, ta, 0);
        let j = choose|j: int| 0 <= j < b.len() && b[j] == b.filter(seen_at(ta))[0] && b[j].last_seen_at == ta;
        if j > 0 {
            assert(!earlier(b[0].last_seen_at, b[j].last_seen_at));
        }
    }
    assert(ta == tb);
    lemma_filter_head(a, ta);
    lemma_filter_head(b, ta);
    assert(a.filter(seen_at(ta)) == b.filter(seen_at(ta)));
    assert(a[0] == a.filter(seen_at(ta))[0]);
    assert(b[0] == b.filter(seen_at(ta))[0]);
    let a1 = a.drop_first();
    let b1 = b.drop_first();
    assert forall|t: Timestamp| #[trigger] a1.filter(seen_at(t)) == b1.filter(seen_at(t)) by {
        lemma_filter_head(a, t);
        lemma_filter_head(b, t);
        assert(a.filter(seen_at(t)) == b.filter(seen_at(t)));
        if t == ta {
            assert(a1.filter(seen_at(t)) =~= a.filter(seen_at(t)).drop_first());
            assert(b1.filter(seen_at(t)) =~= b.filter(seen_at(t)).drop_first());
        } else {
            assert(a1.filter(seen_at(t)) =~= a.filter(seen_at(t)));
            assert(b1.filter(seen_at(t)) =~= b.filter(seen_at(t)));
        }
    }
    assert forall|i: int, j: int| 0 <= i < j < a1.len() implies !earlier(
        #[trigger] a1[i].last_seen_at,
        #[trigger] a1[j].last_seen_at,
    ) by {
        assert(a1[i] == a[i + 1] && a1[j] == a[j + 1]);
    }
    assert forall|i: int, j: int| 0 <= i < j < b1.len() implies !earlier(
        #[trigger] b1[i].last_seen_at,
        #[trigger] b1[j].last_seen_at,
    ) by {
        assert(b1[i] == b[i + 1] && b1[j] == b[j + 1]);
    }
    lemma_sorted_unique(a1, b1);
    assert(a == seq![a[0]] + a1);
    assert(b == seq![b[0]] + b1);
}

/// The stable newest-first sort is the one list with its defining property.
pub proof fn lemma_sort_newest_first(input: Seq<ObservationView>, output: Seq<ObservationView>)
    requires
        stably_newest_first(input, output),
    ensures
        sort_newest_first(input) == output,
{
    let chosen = sort_newest_first(input);
    assert(stably_newest_first(input, chosen));
    assert forall|t: Timestamp| #[trigger] chosen.filter(seen_at(t)) == output.filter(seen_at(t)) by {
        assert(chosen.filter(seen_at(t)) == input.filter(seen_at(t)));
        assert(output.filter(seen_at(t)) == input.filter(seen_at(t)));
    }
    lemma_sorted_unique(chosen, output);
}

proof fn lemma_filter_push(s: Seq<ObservationView>, x: ObservationView, t: Timestamp)
    ensures
        s.push(x).filter(seen_at(t)) == s.filter(seen_at(t)) + (if x.last_seen_at == t {
            seq![x]
        } else {
            Seq::<ObservationView>::empty()
        }),
{
    reveal(Seq::filter);
    assert(s.push(x).drop_last() == s);
    if x.last_seen_at == t {
        assert(s.filter(seen_at(t)).push(x) =~= s.filter(seen_at(t)) + seq![x]);
    } else {
        assert(s.filter(seen_at(t)) =~= s.filter(seen_at(t)) + Seq::<ObservationView>::empty());
    }
}

proof fn lemma_insert_sorted(out: Seq<ObservationView>, x: ObservationView, p: int)
    requires
        newest_first(out),
        0 <= p <= out.len(),
        forall|q: int| 0 <= q < p ==> !earlier(#[trigger] out[q].last_seen_at, x.last_seen_at),
        p < out.len() ==> earlier(out[p].last_seen_at, x.last_seen_at),
    ensures
        newest_first(out.insert(p, x)),
        forall|t: Timestamp| #[trigger] out.insert(p, x).filter(seen_at(t)) == out.filter(seen_at(t)) + (
        if x.last_seen_at == t {
            seq![x]
        } else {
            Seq::<ObservationView>::empty()
        }),
{
    let r = out.insert(p, x);
    assert forall|i: int, j: int| 0 <= i < j < r.len() implies !earlier(
        #[trigger] r[i].last_seen_at,
        #[trigger] r[j].last_seen_at,
    ) by {
        if j < p {
            assert(r[i] == out[i] && r[j] == out[j]);
        } else if j == p {
            assert(r[i] == out[i]);
        } else if i == p {
            assert(r[j] == out[j - 1]);
            if j - 1 > p {
                assert(!earlier(out[p].last_seen_at, out[j - 1].last_seen_at));
            }
        } else if i < p {
            assert(r[i] == out[i] && r[j] == out[j - 1]);
        } else {
            assert(r[i] == out[i - 1] && r[j] == out[j - 1]);
        }
    }
    let front = out.take(p);
    let back = out.skip(p);
    assert(out == front + back);
    assert(r == front + seq![x] + back);
    assert forall|t: Timestamp| #[trigger] r.filter(seen_at(t)) == out.filter(seen_at(t)) + (if x.last_seen_at
        == t {
        seq![x]
    } else {
        Seq::<ObservationView>::empty()
    }) by {
        broadcast use Seq::filter_distributes_over_add;
        lemma_filter_push(front, x, t);
        assert(front + seq![x] == front.push(x));
        if x.last_seen_at == t {
            assert forall|i: int| 0 <= i < back.len() implies back[i].last_seen_at != t by {
                assert(back[i] == out[p + i]);
                if i > 0 {
                    assert(!earlier(out[p].last_seen_at, out[p + i].last_seen_at));
                }
            }
            lemma_filter_empty(back, t);
            assert(r.filter(seen_at(t)) =~= front.filter(seen_at(t)) + seq![x]);
            assert(out.filter(seen_at(t)) =~= front.filter(seen_at(t)));
        } else {
            assert(r.filter(seen_at(t)) =~= front.filter(seen_at(t)) + back.filter(seen_at(t)));
        }
    }
}

/// Sorts observations newest first, keeping the order of those seen at the
/// same time.
pub fn sort_observations(input: Vec<ProfileObservation>) -> (out: Vec<ProfileObservation>)
    ensures
        observations_view(out@) == sort_newest_first(observations_view(input@)),
{
    let ghost all = input@;
    let ghost iv = observations_view(input@);
    let mut out: Vec<ProfileObservation> = Vec::new();
    assert(iv.take(0) =~= Seq::<ObservationView>::empty());
    assert(observations_view(out@) =~= Seq::<ObservationView>::empty());
    for x in it: input
        invariant
            it.seq() == all,
            iv == observations_view(all),
            newest_first(observations_view(out@)),
            forall|t: Timestamp| #[trigger] observations_view(out@).filter(seen_at(t))
                == iv.take(it.index() as int).filter(seen_at(t)),
    {
        let ghost k = it.index() as int;
        assert(x == all[k]);
        let mut p: usize = 0;
        while p < out.len() && !is_earlier(out[p].last_seen_at, x.last_seen_at)
            invariant
                p <= out@.len(),
                forall|q: int|
                    0 <= q < p ==> !earlier(
                        #[trigger] observations_view(out@)[q].last_seen_at,
                        x.last_seen_at,
                    ),
            decreases out@.len() - p,
        {
            p = p + 1;
        }
        let ghost before = observations_view(out@);
        proof {
            lemma_insert_sorted(before, x@, p as int);
        }
        out.insert(p, x);
        assert(observations_view(out@) =~= before.insert(p as int, x@));
        assert(iv.take(k + 1) =~= iv.take(k).push(x@));
        assert forall|t: Timestamp| #[trigger] observations_view(out@).filter(seen_at(t))
            == iv.take(k + 1).filter(seen_at(t)) by {
            lemma_filter_push(iv.take(k), x@, t);
        }
    }
    assert(iv.take(iv.len() as int) == iv);
    proof {
        lemma_sort_newest_first(iv, observations_view(out@));
    }
    out
}

/// The index of the first element at or after `k` that satisfies `pred`.
pub open spec fn first_index_from<A>(s: Seq<A>, pred: spec_fn(A) -> bool, k: int) -> Option<int>
    decreases s.len() - k,
{
    if k < 0 || k >= s.len() {
        None
    } else if pred(s[k]) {
        Some(k)
    } else {
        first_index_from(s, pred, k + 1)
    }
}

/// The index of the first element that satisfies `pred`.
pub open spec fn first_index<A>(s: Seq<A>, pred: spec_fn(A) -> bool) -> Option<int> {
    first_index_from(s, pred, 0)
}

proof fn lemma_first_index_found<A>(s: Seq<A>, pred: spec_fn(A) -> bool, k: int, i: int)
    requires
        0 <= k <= i < s.len(),
        pred(s[i]),
        forall|j: int| k <= j < i ==> !pred(#[trigger] s[j]),
    ensures
        first_index_from(s, pred, k) == Some(i),
    decreases i - k,
{
    if k < i {
        lemma_first_index_found(s, pred, k + 1, i);
    }
}

proof fn lemma_first_index_none<A>(s: Seq<A>, pred: spec_fn(A) -> bool, k: int)
    requires
        0 <= k,
        forall|j: int| k <= j < s.len() ==> !pred(#[trigger] s[j]),
    ensures
        first_index_from(s, pred, k) is None,
    decreases s.len() - k,
{
    if k < s.len() {
        lemma_first_index_none(s, pred, k + 1);
    }
}

/// At most the first `n` elements (`into_iter().take(n)`, `truncate(n)`).
pub open spec fn first_n<A>(s: Seq<A>, n: nat) -> Seq<A> {
    if s.len() <= n {
        s
    } else {
        s.take(n as int)
    }
}

/// `n + 1`, staying at `u32::MAX`.
pub open spec fn saturating_inc(n: u32) -> u32 {
    if n == u32::MAX {
        n
    } else {
        (n + 1) as u32
    }
}

/// The estimate as stored: confidence clamped to [0, 1], rationale
/// compacted to 240 characters.
pub open spec fn sanitized_overall(e: CefrEstimate) -> CefrEstimateView {
    CefrEstimateView {
        level: e.level,
        confidence_bits: clamp_unit(e.confidence_bits),
        rationale: compact(e.rationale@, 240),
    }
}

/// The stored form of a proposed dimension estimate, made at `now`.
pub open spec fn patched_dimension(p: PatchDimension, now: Timestamp) -> DimensionEstimateView {
    DimensionEstimateView {
        dimension: p.dimension,
        level: p.level,
        confidence_bits: clamp_unit(p.confidence_bits),
        evidence: compact(p.evidence@, 240),
        updated_at: now,
    }
}

/// Estimates for dimension `d`.
pub open spec fn same_dimension(d: Dimension) -> spec_fn(DimensionEstimateView) -> bool {
    |e: DimensionEstimateView| e.dimension == d
}

/// The estimates with `next` in place of the first one for its dimension, or
/// added at the end when there is none.
pub open spec fn merge_dimension(dims: Seq<DimensionEstimateView>, next: DimensionEstimateView) -> Seq<
    DimensionEstimateView,
> {
    match first_index(dims, same_dimension(next.dimension)) {
        Some(i) => dims.update(i, next),
        None => dims.push(next),
    }
}

/// The proposed estimates merged one after another.
pub open spec fn merge_dimensions(
    dims: Seq<DimensionEstimateView>,
    patch: Seq<PatchDimension>,
    now: Timestamp,
) -> Seq<DimensionEstimateView>
    decreases patch.len(),
{
    if patch.len() == 0 {
        dims
    } else {
        merge_dimensions(
            merge_dimension(dims, patched_dimension(patch[0], now)),
            patch.drop_first(),
            now,
        )
    }
}

/// Observations of the same dimension and level whose descriptor matches,
/// ignoring ASCII case.
pub open spec fn matching_observation(
    dimension: Dimension,
    level: CefrLevel,
    descriptor: Seq<char>,
) -> spec_fn(ObservationView) -> bool {
    |e: ObservationView|
        e.dimension == dimension && e.cefr_level == level && eq_ignore_ascii_case(
            e.descriptor,
            descriptor,
        )
}

/// The observations after one proposed observation: skipped when its
/// compacted descriptor or evidence is empty; otherwise the first matching
/// observation takes the new evidence, counts one more sighting and is seen
/// `now`, or, when none matches, a new observation first and last seen `now`
/// is added.
pub open spec fn merge_observation(
    obs: Seq<ObservationView>,
    o: PatchObservation,
    now: Timestamp,
) -> Seq<ObservationView> {
    let descriptor = compact(o.descriptor@, 160);
    let evidence = compact(o.evidence@, 240);
    if descriptor.len() == 0 || evidence.len() == 0 {
        obs
    } else {
        match first_index(obs, matching_observation(o.dimension, o.cefr_level, descriptor)) {
            Some(i) => obs.update(
                i,
                ObservationView {
                    evidence,
                    evidence_count: saturating_inc(obs[i].evidence_count),
                    last_seen_at: now,
                    ..obs[i]
                },
            ),
            None => obs.push(
                ObservationView {
                    dimension: o.dimension,
                    cefr_level: o.cefr_level,
                    descriptor,
                    evidence,
                    evidence_count: 1,
                    first_seen_at: now,
                    last_seen_at: now,
                },
            ),
        }
    }
}

/// The proposed observations merged one after another.
pub open spec fn merge_observations(
    obs: Seq<ObservationView>,
    patch: Seq<PatchObservation>,
    now: Timestamp,
) -> Seq<ObservationView>
    decreases patch.len(),
{
    if patch.len() == 0 {
        obs
    } else {
        merge_observations(merge_observation(obs, patch[0], now), patch.drop_first(), now)
    }
}

/// The last `n` elements, or all when there are fewer.
pub open spec fn keep_last<A>(s: Seq<A>, n: nat) -> Seq<A> {
    if s.len() > n {
        s.skip(s.len() - n)
    } else {
        s
    }
}

/// The profile after merging `patch`, proposed for turn `turn_id` of session
/// `session_id`, at `now`: the overall estimate replaced; at most four
/// dimension estimates and six observations merged; observations sorted
/// newest first and cut to 80; the session counted once; the turn recorded,
/// keeping the last 1000.
pub open spec fn patched_profile(
    p: LearnerProfileView,
    patch: ProfilePatch,
    session_id: Seq<char>,
    turn_id: Seq<char>,
    now: Timestamp,
) -> LearnerProfileView {
    let seen = p.observed_session_ids.contains(session_id);
    LearnerProfileView {
        version: p.version,
        updated_at: now,
        conversations_observed: if seen {
            p.conversations_observed
        } else {
            saturating_inc(p.conversations_observed)
        },
        overall: sanitized_overall(patch.overall),
        dimensions: merge_dimensions(p.dimensions, first_n(patch.dimensions@, 4), now),
        observations: first_n(
            sort_newest_first(
                merge_observations(p.observations, first_n(patch.observations@, 6), now),
            ),
            80,
        ),
        observed_session_ids: if seen {
            p.observed_session_ids
        } else {
            p.observed_session_ids.push(session_id)
        },
        processed_turn_ids: keep_last(p.processed_turn_ids.push(turn_id), 1000),
    }
}

/// `compact` on a string.
pub fn compact_string(value: &str, max_chars: usize) -> (r: String)
    ensures
        r@ == compact(value@, max_chars as nat),
{
    let c = chars_of(value);
    let out = compact_chars(c.as_slice(), max_chars);
    string_of(out.as_slice())
}

fn sanitize_overall(e: CefrEstimate) -> (r: CefrEstimate)
    ensures
        r@ == sanitized_overall(e),
{
    CefrEstimate {
        level: e.level,
        confidence_bits: clamp_unit_bits(e.confidence_bits),
        rationale: compact_string(e.rationale.as_str(), 240),
    }
}

fn merge_dimension_exec(dims: &mut Vec<DimensionEstimate>, next: DimensionEstimate)
    ensures
        dimensions_view(final(dims)@) == merge_dimension(dimensions_view(old(dims)@), next@),
{
    let ghost dv = dimensions_view(dims@);
    let mut i: usize = 0;
    while i < dims.len()
        invariant
            dims@ == old(dims)@,
            dv == dimensions_view(dims@),
            i <= dims@.len(),
            forall|j: int| 0 <= j < i ==> !(#[trigger] same_dimension(next.dimension)(dv[j])),
        decreases dims@.len() - i,
    {
        if dims[i].dimension == next.dimension {
            proof {
                lemma_first_index_found(dv, same_dimension(next.dimension), 0, i as int);
            }
            let ghost nv = next@;
            dims.set(i, next);
            assert(dimensions_view(dims@) =~= dv.update(i as int, nv));
            return;
        }
        i = i + 1;
    }
    proof {
        lemma_first_index_none(dv, same_dimension(next.dimension), 0);
    }
    let ghost nv = next@;
    dims.push(next);
    assert(dimensions_view(dims@) =~= dv.push(nv));
}

fn merge_observation_exec(obs: &mut Vec<ProfileObservation>, o: &PatchObservation, now: Timestamp)
    ensures
        observations_view(final(obs)@) == merge_observation(observations_view(old(obs)@), *o, now),
{
    let descriptor_chars = compact_chars(chars_of(o.descriptor.as_str()).as_slice(), 160);
    let evidence = compact_string(o.evidence.as_str(), 240);
    if descriptor_chars.len() == 0 || evidence.as_str().is_empty() {
        return;
    }
    let ghost ov = observations_view(obs@);
    let ghost pred = matching_observation(o.dimension, o.cefr_level, descriptor_chars@);
    let mut i: usize = 0;
    while i < obs.len()
        invariant
            obs@ == old(obs)@,
            descriptor_chars@ == compact(o.descriptor@, 160),
            evidence@ == compact(o.evidence@, 240),
            descriptor_chars@.len() > 0,
            evidence@.len() > 0,
            ov == observations_view(obs@),
            pred == matching_observation(o.dimension, o.cefr_level, descriptor_chars@),
            i <= obs@.len(),
            forall|j: int| 0 <= j < i ==> !(#[trigger] pred(ov[j])),
        decreases obs@.len() - i,
    {
        let existing = &obs[i];
        let existing_descriptor = chars_of(existing.descriptor.as_str());
        if existing.dimension == o.dimension && existing.cefr_level == o.cefr_level
            && eq_ignore_ascii_case_chars(existing_descriptor.as_slice(), descriptor_chars.as_slice()) {
            proof {
                lemma_first_index_found(ov, pred, 0, i as int);
            }
            let count = if existing.evidence_count == u32::MAX {
                existing.evidence_count
            } else {
                existing.evidence_count + 1
            };
            let updated = ProfileObservation {
                dimension: existing.dimension,
                cefr_level: existing.cefr_level,
                descriptor: existing.descriptor.clone(),
                evidence,
                evidence_count: count,
                first_seen_at: existing.first_seen_at,
                last_seen_at: now,
            };
            let ghost uv = updated@;
            obs.set(i, updated);
            assert(observations_view(obs@) =~= ov.update(i as int, uv));
            return;
        }
        i = i + 1;
    }
    proof {
        lemma_first_index_none(ov, pred, 0);
    }
    let added = ProfileObservation {
        dimension: o.dimension,
        cefr_level: o.cefr_level,
        descriptor: string_of(descriptor_chars.as_slice()),
        evidence,
        evidence_count: 1,
        first_seen_at: now,
        last_seen_at: now,
    };
    let ghost av = added@;
    obs.push(added);
    assert(observations_view(obs@) =~= ov.push(av));
}

fn contains_string(ids: &Vec<String>, id: &str) -> (r: bool)
    ensures
        r == strings_view(ids@).contains(id@),
{
    let mut i: usize = 0;
    while i < ids.len()
        invariant
            i <= ids@.len(),
            forall|j: int| 0 <= j < i ==> ids@[j]@ != id@,
        decreases ids@.len() - i,
    {
        if str_eq(ids[i].as_str(), id) {
            assert(strings_view(ids@)[i as int] == id@);
            return true;
        }
        i = i + 1;
    }
    assert forall|j: int| 0 <= j < strings_view(ids@).len() implies strings_view(ids@)[j] != id@ by {}
    false
}

/// Has the profile already merged a patch for this turn? A turn that has is
/// not evaluated again.
pub fn turn_already_processed(profile: &LearnerProfile, turn_id: &str) -> (r: bool)
    ensures
        r == profile@.processed_turn_ids.contains(turn_id@),
{
    contains_string(&profile.processed_turn_ids, turn_id)
}

/// Merges `patch`, proposed for turn `turn_id` of session `session_id`, into
/// the profile at `now`.
pub fn apply_patch(
    profile: &mut LearnerProfile,
    patch: ProfilePatch,
    session_id: &str,
    turn_id: &str,
    now: Timestamp,
)
    ensures
        final(profile)@ == patched_profile(old(profile)@, patch, session_id@, turn_id@, now),
{
    let ghost old_view = profile@;
    let ghost patch_copy = patch;
    let ProfilePatch { overall, dimensions, observations } = patch;
    profile.overall = sanitize_overall(overall);
    let mut dims: Vec<DimensionEstimate> = Vec::new();
    std::mem::swap(&mut dims, &mut profile.dimensions);
    let mut merged: Vec<ProfileObservation> = Vec::new();
    std::mem::swap(&mut merged, &mut profile.observations);

    let ghost pd = first_n(dimensions@, 4);
    let dim_count = if dimensions.len() < 4 {
        dimensions.len()
    } else {
        4
    };
    assert(pd == dimensions@.take(dim_count as int));
    let mut i: usize = 0;
    assert(pd.skip(0) == pd);
    while i < dim_count
        invariant
            dim_count <= dimensions@.len(),
            pd == dimensions@.take(dim_count as int),
            i <= dim_count,
            merge_dimensions(old_view.dimensions, pd, now) == merge_dimensions(
                dimensions_view(dims@),
                pd.skip(i as int),
                now,
            ),
        decreases dim_count - i,
    {
        let estimate = &dimensions[i];
        let next = DimensionEstimate {
            dimension: estimate.dimension,
            level: estimate.level,
            confidence_bits: clamp_unit_bits(estimate.confidence_bits),
            evidence: compact_string(estimate.evidence.as_str(), 240),
            updated_at: now,
        };
        assert(next@ == patched_dimension(pd.skip(i as int)[0], now));
        assert(pd.skip(i as int).drop_first() == pd.skip(i + 1));
        merge_dimension_exec(&mut dims, next);
        i = i + 1;
    }
    assert(pd.skip(dim_count as int).len() == 0);
    profile.dimensions = dims;

    let ghost po = first_n(observations@, 6);
    let obs_count = if observations.len() < 6 {
        observations.len()
    } else {
        6
    };
    assert(po == observations@.take(obs_count as int));
    let mut k: usize = 0;
    assert(po.skip(0) == po);
    while k < obs_count
        invariant
            obs_count <= observations@.len(),
            po == observations@.take(obs_count as int),
            k <= obs_count,
            merge_observations(old_view.observations, po, now) == merge_observations(
                observations_view(merged@),
                po.skip(k as int),
                now,
            ),
        decreases obs_count - k,
    {
        assert(po.skip(k as int)[0] == observations@[k as int]);
        assert(po.skip(k as int).drop_first() == po.skip(k + 1));
        merge_observation_exec(&mut merged, &observations[k], now);
        k = k + 1;
    }
    assert(po.skip(obs_count as int).len() == 0);
    let mut sorted = sort_observations(merged);
    sorted.truncate(80);
    assert(observations_view(sorted@) =~= first_n(
        sort_newest_first(merge_observations(old_view.observations, po, now)),
        80,
    ));
    profile.observations = sorted;

    if !contains_string(&profile.observed_session_ids, session_id) {
        let ghost before = profile.observed_session_ids@;
        profile.observed_session_ids.push(session_id.to_owned());
        assert(strings_view(profile.observed_session_ids@) =~= strings_view(before).push(
            session_id@,
        ));
        profile.conversations_observed = if profile.conversations_observed == u32::MAX {
            profile.conversations_observed
        } else {
            profile.conversations_observed + 1
        };
    }
    let ghost turns_before = profile.processed_turn_ids@;
    profile.processed_turn_ids.push(turn_id.to_owned());
    assert(strings_view(profile.processed_turn_ids@) =~= strings_view(turns_before).push(turn_id@));
    if profile.processed_turn_ids.len() > 1000 {
        let ghost all = strings_view(profile.processed_turn_ids@);
        let cut = profile.processed_turn_ids.len() - 1000;
        let kept = profile.processed_turn_ids.split_off(cut);
        assert(strings_view(kept@) =~= all.skip(all.len() - 1000));
        profile.processed_turn_ids = kept;
    }
    profile.updated_at = now;
}

/// The profile format version.
pub const PROFILE_VERSION: u32 = 2;

/// The bit pattern of `0.0f32`.
pub const ZERO_CONFIDENCE: u32 = 0;

impl LearnerProfile {
    /// A profile with no evidence yet, made at `now`.
    pub fn empty_at(now: Timestamp) -> (p: LearnerProfile)
        ensures
            p@.version == PROFILE_VERSION,
            p@.updated_at == now,
            p@.conversations_observed == 0,
            p@.overall.level == CefrLevel::InsufficientEvidence,
            p@.overall.confidence_bits == ZERO_CONFIDENCE,
            p@.overall.rationale == "Not enough multi-turn learning evidence yet."@,
            p@.dimensions.len() == 0,
            p@.observations.len() == 0,
            p@.observed_session_ids.len() == 0,
            p@.processed_turn_ids.len() == 0,
    {
        let p = LearnerProfile {
            version: PROFILE_VERSION,
            updated_at: now,
            conversations_observed: 0,
            overall: CefrEstimate {
                level: CefrLevel::InsufficientEvidence,
                confidence_bits: ZERO_CONFIDENCE,
                rationale: "Not enough multi-turn learning evidence yet.".to_owned(),
            },
            dimensions: Vec::new(),
            observations: Vec::new(),
            observed_session_ids: Vec::new(),
            processed_turn_ids: Vec::new(),
        };
        assert(dimensions_view(p.dimensions@) =~= Seq::<DimensionEstimateView>::empty());
        assert(observations_view(p.observations@) =~= Seq::<ObservationView>::empty());
        assert(strings_view(p.observed_session_ids@) =~= Seq::<Seq<char>>::empty());
        p
    }
}

/// The estimate held for dimension `d`: the first one for it, if any.
pub open spec fn estimate_for(dims: Seq<DimensionEstimateView>, d: Dimension) -> Option<DimensionEstimateView> {
    match first_index(dims, same_dimension(d)) {
        Some(j) => Some(dims[j]),
        None => None,
    }
}

proof fn lemma_first_index_from_props<A>(s: Seq<A>, pred: spec_fn(A) -> bool, k: int)
    requires
        0 <= k,
    ensures
        match first_index_from(s, pred, k) {
            Some(i) => k <= i < s.len() && pred(s[i]) && forall|j: int| k <= j < i ==> !pred(#[trigger] s[j]),
            None => forall|j: int| k <= j < s.len() ==> !pred(#[trigger] s[j]),
        },
    decreases s.len() - k,
{
    if k < s.len() && !pred(s[k]) {
        lemma_first_index_from_props(s, pred, k + 1);
    }
}

/// The estimate for `d` is the first element of dimension `d`; none means no
/// element has dimension `d`.
proof fn lemma_estimate_for(dims: Seq<DimensionEstimateView>, d: Dimension)
    ensures
        match first_index(dims, same_dimension(d)) {
            Some(i) => 0 <= i < dims.len() && dims[i].dimension == d && forall|j: int|
                0 <= j < i ==> (#[trigger] dims[j]).dimension != d,
            None => forall|j: int| 0 <= j < dims.len() ==> (#[trigger] dims[j]).dimension != d,
        },
{
    lemma_first_index_from_props(dims, same_dimension(d), 0);
}

/// Merging one estimate makes it the one held for its dimension and keeps
/// the one held for every other dimension.
proof fn lemma_merge_dimension(dims: Seq<DimensionEstimateView>, next: DimensionEstimateView, d: Dimension)
    ensures
        estimate_for(merge_dimension(dims, next), next.dimension) == Some(next),
        d != next.dimension ==> estimate_for(merge_dimension(dims, next), d) == estimate_for(dims, d),
{
    let res = merge_dimension(dims, next);
    let pn = same_dimension(next.dimension);
    let pd = same_dimension(d);
    lemma_estimate_for(dims, next.dimension);
    lemma_estimate_for(dims, d);
    lemma_estimate_for(res, next.dimension);
    lemma_estimate_for(res, d);
    match first_index(dims, pn) {
        Some(i) => {
            assert(res == dims.update(i, next));
            lemma_first_index_found(res, pn, 0, i);
            if d != next.dimension {
                assert forall|j: int| 0 <= j < res.len() implies (#[trigger] res[j]).dimension == d
                    <==> dims[j].dimension == d by {
                    if j == i {
                        assert(res[j] == next);
                    }
                }
                match first_index(dims, pd) {
                    Some(k) => {
                        lemma_first_index_found(res, pd, 0, k);
                        assert(k != i);
                        assert(res[k] == dims[k]);
                    },
                    None => {
                        lemma_first_index_none(res, pd, 0);
                    },
                }
            }
        },
        None => {
            assert(res == dims.push(next));
            lemma_first_index_found(res, pn, 0, dims.len() as int);
            if d != next.dimension {
                match first_index(dims, pd) {
                    Some(k) => {
                        lemma_first_index_found(res, pd, 0, k);
                        assert(res[k] == dims[k]);
                    },
                    None => {
                        assert forall|j: int| 0 <= j < res.len() implies !pd(#[trigger] res[j]) by {
                            if j < dims.len() {
                                assert(res[j] == dims[j]);
                            }
                        }
                        lemma_first_index_none(res, pd, 0);
                    },
                }
            }
        },
    }
}

/// Merging proposals that propose nothing for `d` keeps the estimate held
/// for `d`.
proof fn lemma_merge_dimensions_keep(
    dims: Seq<DimensionEstimateView>,
    patch: Seq<PatchDimension>,
    now: Timestamp,
    d: Dimension,
)
    requires
        forall|j: int| 0 <= j < patch.len() ==> (#[trigger] patch[j]).dimension != d,
    ensures
        estimate_for(merge_dimensions(dims, patch, now), d) == estimate_for(dims, d),
    decreases patch.len(),
{
    if patch.len() > 0 {
        let next = patched_dimension(patch[0], now);
        lemma_merge_dimension(dims, next, d);
        assert forall|j: int| 0 <= j < patch.drop_first().len() implies (
        #[trigger] patch.drop_first()[j]).dimension != d by {
            assert(patch.drop_first()[j] == patch[j + 1]);
        }
        lemma_merge_dimensions_keep(merge_dimension(dims, next), patch.drop_first(), now, d);
    }
}

/// Merging proposals leaves, for the dimension of proposal `k` that no later
/// proposal repeats, exactly that proposal as stored at `now`.
proof fn lemma_merge_dimensions_set(
    dims: Seq<DimensionEstimateView>,
    patch: Seq<PatchDimension>,
    now: Timestamp,
    k: int,
)
    requires
        0 <= k < patch.len(),
        forall|j: int| k < j < patch.len() ==> (#[trigger] patch[j]).dimension != patch[k].dimension,
    ensures
        estimate_for(merge_dimensions(dims, patch, now), patch[k].dimension) == Some(
            patched_dimension(patch[k], now),
        ),
    decreases patch.len(),
{
    let next = patched_dimension(patch[0], now);
    let rest = patch.drop_first();
    if k == 0 {
        lemma_merge_dimension(dims, next, next.dimension);
        assert forall|j: int| 0 <= j < rest.len() implies (#[trigger] rest[j]).dimension
            != patch[0].dimension by {
            assert(rest[j] == patch[j + 1]);
        }
        lemma_merge_dimensions_keep(merge_dimension(dims, next), rest, now, patch[0].dimension);
    } else {
        assert forall|j: int| k - 1 < j < rest.len() implies (#[trigger] rest[j]).dimension
            != rest[k - 1].dimension by {
            assert(rest[j] == patch[j + 1]);
        }
        lemma_merge_dimensions_set(merge_dimension(dims, next), rest, now, k - 1);
    }
}

/// A patch sets the estimate of each dimension it proposes: after the patch,
/// the estimate the profile holds for the dimension of proposal `k` (among
/// the four proposals that count, and not proposed again after `k`) is that
/// proposal with its confidence clamped and its evidence compacted, made at
/// `now`, whatever estimate the profile held before.
pub proof fn lemma_patch_sets_dimensions(
    p: LearnerProfileView,
    patch: ProfilePatch,
    session_id: Seq<char>,
    turn_id: Seq<char>,
    now: Timestamp,
    k: int,
)
    requires
        0 <= k < first_n(patch.dimensions@, 4).len(),
        forall|j: int|
            k < j < first_n(patch.dimensions@, 4).len() ==> (#[trigger] patch.dimensions@[j]).dimension
                != patch.dimensions@[k].dimension,
    ensures
        estimate_for(
            patched_profile(p, patch, session_id, turn_id, now).dimensions,
            patch.dimensions@[k].dimension,
        ) == Some(
            DimensionEstimateView {
                dimension: patch.dimensions@[k].dimension,
                level: patch.dimensions@[k].level,
                confidence_bits: clamp_unit(patch.dimensions@[k].confidence_bits),
                evidence: compact(patch.dimensions@[k].evidence@, 240),
                updated_at: now,
            },
        ),
{
    let ps = first_n(patch.dimensions@, 4);
    assert forall|j: int| 0 <= j < ps.len() implies #[trigger] ps[j] == patch.dimensions@[j] by {}
    assert forall|j: int| k < j < ps.len() implies (#[trigger] ps[j]).dimension != ps[k].dimension by {
        assert(ps[j] == patch.dimensions@[j]);
    }
    lemma_merge_dimensions_set(p.dimensions, ps, now, k);
}

/// A session is counted once, however many of its turns bring patches.
pub proof fn lemma_session_counted_once(
    p: LearnerProfileView,
    first: ProfilePatch,
    second: ProfilePatch,
    session_id: Seq<char>,
    first_turn: Seq<char>,
    second_turn: Seq<char>,
    first_now: Timestamp,
    second_now: Timestamp,
)
    requires
        !p.observed_session_ids.contains(session_id),
        p.conversations_observed < u32::MAX,
    ensures
        patched_profile(
            patched_profile(p, first, session_id, first_turn, first_now),
            second,
            session_id,
            second_turn,
            second_now,
        ).conversations_observed == p.conversations_observed + 1,
{
    let q = patched_profile(p, first, session_id, first_turn, first_now);
    assert(q.observed_session_ids.last() == session_id);
    assert(q.observed_session_ids.contains(session_id));
}

/// After any patch the profile holds at most 80 observations, newest first,
/// and remembers at most the last 1000 turns.
pub proof fn lemma_patched_profile_bounds(
    p: LearnerProfileView,
    patch: ProfilePatch,
    session_id: Seq<char>,
    turn_id: Seq<char>,
    now: Timestamp,
)
    ensures
        patched_profile(p, patch, session_id, turn_id, now).observations.len() <= 80,
        newest_first(patched_profile(p, patch, session_id, turn_id, now).observations),
        patched_profile(p, patch, session_id, turn_id, now).processed_turn_ids.len() <= 1000,
        patched_profile(p, patch, session_id, turn_id, now).processed_turn_ids.last() == turn_id,
{
    let merged = merge_observations(p.observations, first_n(patch.observations@, 6), now);
    lemma_stable_sort_exists(merged);
    let sorted = sort_newest_first(merged);
    let cut = first_n(sorted, 80);
    assert forall|i: int, j: int| 0 <= i < j < cut.len() implies !earlier(
        #[trigger] cut[i].last_seen_at,
        #[trigger] cut[j].last_seen_at,
    ) by {
        assert(cut[i] == sorted[i] && cut[j] == sorted[j]);
    }
    let turns = p.processed_turn_ids.push(turn_id);
    if turns.len() > 1000 {
        assert(keep_last(turns, 1000).last() == turns.last());
    }
}

/// Every list of observations has a stable newest-first sort.
pub proof fn lemma_stable_sort_exists(s: Seq<ObservationView>)
    ensures
        stably_newest_first(s, sort_newest_first(s)),
    decreases s.len(),
{
    if s.len() == 0 {
        assert(stably_newest_first(s, s));
    } else {
        let init = s.drop_last();
        let x = s.last();
        lemma_stable_sort_exists(init);
        let sorted = sort_newest_first(init);
        let p = choose_insert_position(sorted, x);
        lemma_insert_sorted(sorted, x, p);
        let r = sorted.insert(p, x);
        assert(s == init.push(x));
        assert forall|t: Timestamp| #[trigger] r.filter(seen_at(t)) == s.filter(seen_at(t)) by {
            lemma_filter_push(init, x, t);
            assert(sorted.filter(seen_at(t)) == init.filter(seen_at(t)));
        }
        assert(stably_newest_first(s, r));
    }
}

/// Where an observation goes in a newest-first list: after every one seen no
/// earlier than it.
spec fn insert_position_from(sorted: Seq<ObservationView>, x: ObservationView, k: int) -> int
    decreases sorted.len() - k,
{
    if k >= sorted.len() || k < 0 {
        sorted.len() as int
    } else if earlier(sorted[k].last_seen_at, x.last_seen_at) {
        k
    } else {
        insert_position_from(sorted, x, k + 1)
    }
}

proof fn lemma_insert_position(sorted: Seq<ObservationView>, x: ObservationView, k: int)
    requires
        0 <= k <= sorted.len(),
        forall|q: int| 0 <= q < k ==> !earlier(#[trigger] sorted[q].last_seen_at, x.last_seen_at),
    ensures
        0 <= insert_position_from(sorted, x, k) <= sorted.len(),
        forall|q: int|
            0 <= q < insert_position_from(sorted, x, k) ==> !earlier(
                #[trigger] sorted[q].last_seen_at,
                x.last_seen_at,
            ),
        insert_position_from(sorted, x, k) < sorted.len() ==> earlier(
            sorted[insert_position_from(sorted, x, k)].last_seen_at,
            x.last_seen_at,
        ),
    decreases sorted.len() - k,
{
    if k < sorted.len() && !earlier(sorted[k].last_seen_at, x.last_seen_at) {
        lemma_insert_position(sorted, x, k + 1);
    }
}

proof fn choose_insert_position(sorted: Seq<ObservationView>, x: ObservationView) -> (p: int)
    ensures
        0 <= p <= sorted.len(),
        forall|q: int| 0 <= q < p ==> !earlier(#[trigger] sorted[q].last_seen_at, x.last_seen_at),
        p < sorted.len() ==> earlier(sorted[p].last_seen_at, x.last_seen_at),
{
    lemma_insert_position(sorted, x, 0);
    insert_position_from(sorted, x, 0)
}

} // verus!
