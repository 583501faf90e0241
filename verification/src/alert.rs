//! The alert matcher: the two-zone, distance-weighted magnitude rule,
//! and the flat per-event summary handed to the delivery side.
//!
//! The matcher takes the great-circle distance between the rule's
//! origin and the record's coordinate as an argument, in micro-km; its
//! decision is then exact integer arithmetic.

use crate::config::AlertRule;
use crate::config::DIST_LIMIT;
use crate::config::MAG_LIMIT;
use crate::process::QuakeData;
use crate::process::QuakeRec;
use crate::process::recs;
use crate::util::div_toward_zero;
use crate::util::interpolate;
use crate::util::lemma_div_toward_zero_bounds;
use crate::util::lemma_div_toward_zero_exact;
use vstd::prelude::*;

verus! {

/// The minimum magnitude the rule asks of a record at `dist`
/// micro-km: the inner threshold up to the inner radius, the linear
/// interpolation between the thresholds up to the outer radius, and
/// nothing beyond it (`None`: no magnitude can match there).
pub open spec fn required_magnitude(rule: AlertRule, dist: int) -> Option<int> {
    if dist <= rule.search_radius_km_1 {
        Some(rule.min_magnitude_1 as int)
    } else if dist <= rule.search_radius_km_2 {
        Some(
            rule.min_magnitude_1 + div_toward_zero(
                (rule.min_magnitude_2 - rule.min_magnitude_1) * (dist
                    - rule.search_radius_km_1),
                rule.search_radius_km_2 - rule.search_radius_km_1,
            ),
        )
    } else {
        None
    }
}

/// Whether a record with local magnitude `ml` at distance `dist`
/// warrants notification.
pub open spec fn rule_matches(rule: AlertRule, ml: int, dist: int) -> bool {
    match required_magnitude(rule, dist) {
        Some(m) => ml >= m,
        None => false,
    }
}

/// At the inner radius itself the rule still uses the inner threshold
/// exactly: the boundary is inclusive.
pub proof fn lemma_inner_boundary(rule: AlertRule, ml: int)
    requires
        rule.well_formed(),
    ensures
        required_magnitude(rule, rule.search_radius_km_1 as int) == Some(
            rule.min_magnitude_1 as int,
        ),
        rule_matches(rule, ml, rule.search_radius_km_1 as int) == (ml
            >= rule.min_magnitude_1),
{
}

/// At the outer radius the interpolation factor is one, and the
/// required magnitude is exactly the outer threshold.
pub proof fn lemma_outer_boundary(rule: AlertRule, ml: int)
    requires
        rule.well_formed(),
    ensures
        required_magnitude(rule, rule.search_radius_km_2 as int) == Some(
            rule.min_magnitude_2 as int,
        ),
        rule_matches(rule, ml, rule.search_radius_km_2 as int) == (ml
            >= rule.min_magnitude_2),
{
    let a = rule.min_magnitude_2 - rule.min_magnitude_1;
    let q = rule.search_radius_km_2 - rule.search_radius_km_1;
    lemma_div_toward_zero_exact(a, q);
}

/// Beyond the outer radius no record matches, whatever its magnitude.
pub proof fn lemma_beyond_outer(rule: AlertRule, ml: int, dist: int)
    requires
        rule.well_formed(),
        dist > rule.search_radius_km_2,
    ensures
        !rule_matches(rule, ml, dist),
{
}

/// Decides the two-zone rule for one record, `dist_micro_km` being
/// the great-circle distance from the rule's origin to the record's
/// coordinate.
pub fn matches_alert_rule(alert_rule: &AlertRule, quake_data: &QuakeData, dist_micro_km: i64) -> (r:
    bool)
    requires
        alert_rule.well_formed(),
        0 <= dist_micro_km <= DIST_LIMIT,
    ensures
        r == rule_matches(*alert_rule, quake_data@.ml, dist_micro_km as int),
{
    let quake_mag = quake_data.magnitude.get_main();

    if dist_micro_km <= alert_rule.search_radius_km_1 {
        quake_mag >= alert_rule.min_magnitude_1
    } else if dist_micro_km <= alert_rule.search_radius_km_2 {
        proof {
            let a = alert_rule.min_magnitude_2 - alert_rule.min_magnitude_1;
            let b = dist_micro_km - alert_rule.search_radius_km_1;
            assert(-(2 * MAG_LIMIT) <= a <= 2 * MAG_LIMIT);
            assert(0 < b <= DIST_LIMIT);
            assert(-8_000_000_000_000_000_000 <= a * b <= 8_000_000_000_000_000_000)
                by (nonlinear_arith)
                requires
                    -(200_000_000int) <= a <= 200_000_000int,
                    0 < b <= 40_000_000_000int,
            ;
            lemma_div_toward_zero_bounds(
                a * b,
                alert_rule.search_radius_km_2 - alert_rule.search_radius_km_1,
            );
        }
        let min_magnitude = interpolate(
            alert_rule.min_magnitude_1,
            alert_rule.min_magnitude_2,
            dist_micro_km - alert_rule.search_radius_km_1,
            alert_rule.search_radius_km_2 - alert_rule.search_radius_km_1,
        );
        quake_mag >= min_magnitude
    } else {
        false
    }
}

/// The flat per-event summary a delivery collaborator receives.
pub struct AlertContent {
    pub date: String,
    pub time: String,
    pub location: String,
    pub magnitude: i64,
}

impl View for AlertContent {
    type V = (Seq<char>, Seq<char>, Seq<char>, int);

    open spec fn view(&self) -> (Seq<char>, Seq<char>, Seq<char>, int) {
        (self.date@, self.time@, self.location@, self.magnitude as int)
    }
}

/// The summary a record reduces to: date, time, location, and the
/// local-scale magnitude.
pub open spec fn content_of(q: QuakeRec) -> (Seq<char>, Seq<char>, Seq<char>, int) {
    (q.date, q.time, q.location, q.ml)
}

/// The records among `qs` (with distances `ds`, pointwise) that match
/// the rule, in order.
pub open spec fn matching_recs(rule: AlertRule, qs: Seq<QuakeRec>, ds: Seq<int>) -> Seq<QuakeRec>
    decreases qs.len(),
{
    if qs.len() == 0 || ds.len() == 0 {
        Seq::<QuakeRec>::empty()
    } else {
        let rest = matching_recs(rule, qs.drop_first(), ds.drop_first());
        if rule_matches(rule, qs[0].ml, ds[0]) {
            seq![qs[0]] + rest
        } else {
            rest
        }
    }
}

/// Keeps, in order, the records that match the rule; `dists` holds
/// each record's distance from the rule's origin, in micro-km.
pub fn filter_alerts(alert_rule: &AlertRule, quakes: &Vec<QuakeData>, dists: &Vec<i64>) -> (r: Vec<
    QuakeData,
>)
    requires
        alert_rule.well_formed(),
        dists@.len() == quakes@.len(),
        forall|k: int| 0 <= k < dists@.len() ==> 0 <= #[trigger] dists@[k] <= DIST_LIMIT,
    ensures
        recs(r@) == matching_recs(
            *alert_rule,
            recs(quakes@),
            dists@.map_values(|d: i64| d as int),
        ),
{
    let ghost fq = recs(quakes@);
    let ghost fd = dists@.map_values(|d: i64| d as int);
    let mut out: Vec<QuakeData> = Vec::new();
    let mut i: usize = 0;
    proof {
        assert(fq.skip(0) =~= fq);
        assert(fd.skip(0) =~= fd);
        assert(recs(out@) =~= Seq::<QuakeRec>::empty());
    }
    while i < quakes.len()
        invariant
            i <= quakes@.len(),
            dists@.len() == quakes@.len(),
            alert_rule.well_formed(),
            forall|k: int| 0 <= k < dists@.len() ==> 0 <= #[trigger] dists@[k] <= DIST_LIMIT,
            fq == recs(quakes@),
            fd == dists@.map_values(|d: i64| d as int),
            matching_recs(*alert_rule, fq, fd) == recs(out@) + matching_recs(
                *alert_rule,
                fq.skip(i as int),
                fd.skip(i as int),
            ),
        decreases quakes@.len() - i,
    {
        proof {
            assert(fq.skip(i as int)[0] == fq[i as int]);
            assert(fd.skip(i as int)[0] == fd[i as int]);
            assert(fq.skip(i as int).drop_first() =~= fq.skip(i + 1int));
            assert(fd.skip(i as int).drop_first() =~= fd.skip(i + 1int));
        }
        if matches_alert_rule(alert_rule, &quakes[i], dists[i]) {
            let q = quakes[i].clone();
            proof {
                assert(recs(out@.push(q)) =~= recs(out@) + seq![q@]);
                assert((recs(out@) + seq![q@]) + matching_recs(
                    *alert_rule,
                    fq.skip(i + 1int),
                    fd.skip(i + 1int),
                ) =~= recs(out@) + (seq![q@] + matching_recs(
                    *alert_rule,
                    fq.skip(i + 1int),
                    fd.skip(i + 1int),
                )));
            }
            out.push(q);
        }
        i += 1;
    }
    proof {
        assert(fq.skip(i as int).len() == 0);
        assert(matching_recs(*alert_rule, fq.skip(i as int), fd.skip(i as int))
            =~= Seq::<QuakeRec>::empty());
        assert(recs(out@) + Seq::<QuakeRec>::empty() =~= recs(out@));
    }
    out
}

/// Reduces records to the flat summaries handed to delivery, in
/// order.
pub fn alert_contents(quakes: &Vec<QuakeData>) -> (r: Vec<AlertContent>)
    ensures
        r@.len() == quakes@.len(),
        forall|k: int| 0 <= k < r@.len() ==> #[trigger] r@[k]@ == content_of(quakes@[k]@),
{
    let mut out: Vec<AlertContent> = Vec::new();
    let mut i: usize = 0;
    while i < quakes.len()
        invariant
            i <= quakes@.len(),
            out@.len() == i,
            forall|k: int| 0 <= k < i ==> #[trigger] out@[k]@ == content_of(quakes@[k]@),
        decreases quakes@.len() - i,
    {
        let c = AlertContent {
            date: quakes[i].date.clone(),
            time: quakes[i].time.clone(),
            location: quakes[i].location.clone(),
            magnitude: quakes[i].magnitude.get_main(),
        };
        out.push(c);
        i += 1;
    }
    out
}

} // verus!
