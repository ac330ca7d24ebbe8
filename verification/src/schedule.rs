//! The schedule generator: walks a closed date range one calendar day at a
//! time, applies the weekend filter and the probabilistic inclusion gate,
//! draws a commit count for each included day, and emits the ordered
//! sequence of commit requests that the sink is to perform.

use vstd::prelude::*;
use crate::config::PROBABILITY_SCALE;
use crate::config::ScheduleConfig;
use crate::date::Date;
use crate::date::date_label_spec;
use crate::date::day_index;
use crate::date::is_weekend_day;
use crate::date::is_weekend_index;
use crate::date::lemma_day_index_bounds;
use crate::date::lemma_last_date_index;
use crate::random::draw_below;
use crate::random::fresh_rng;

verus! {

/// An inclusive range of calendar days. A range whose start lies after its
/// end is empty: it is walked zero times and produces nothing.
#[derive(Clone, Copy, PartialEq, Eq, Structural, Debug)]
pub struct DateRange {
    pub start_date: Date,
    pub end_date: Date,
}

impl DateRange {
    pub open spec fn valid(self) -> bool {
        self.start_date.valid() && self.end_date.valid()
    }

    /// Whether day index `k` falls inside the closed range.
    pub open spec fn contains(self, k: int) -> bool {
        day_index(self.start_date) <= k <= day_index(self.end_date)
    }

    pub open spec fn day_count(self) -> int {
        if day_index(self.start_date) <= day_index(self.end_date) {
            day_index(self.end_date) - day_index(self.start_date) + 1
        } else {
            0
        }
    }

    /// The number of calendar days the generator walks: one per day of the
    /// closed range, zero when the start lies after the end.
    pub fn days(&self) -> (n: u32)
        requires
            self.valid(),
        ensures
            n == self.day_count(),
    {
        let s = self.start_date.day_number();
        let e = self.end_date.day_number();
        if s <= e {
            e - s + 1
        } else {
            0
        }
    }
}

/// The decision taken for one calendar day: passed over, or given a number
/// of commits.
#[derive(Clone, Copy, PartialEq, Eq, Structural, Debug)]
pub enum DayPlan {
    Skipped,
    Commits { count: u32 },
}

/// One included day of a schedule, with the commit count drawn for it.
#[derive(Clone, Copy, PartialEq, Eq, Structural, Debug)]
pub struct PlannedDay {
    pub date: Date,
    pub count: u32,
}

/// One commit to be handed to the sink: a message and the date that serves
/// as the commit's timestamp.
#[derive(Clone, PartialEq, Eq, Debug)]
pub struct CommitRequest {
    pub date: Date,
    pub message: Vec<u8>,
}

/// Whether one of the first `bound` planned days falls on day index `k`.
pub open spec fn day_planned(plans: Seq<PlannedDay>, bound: int, k: int) -> bool {
    exists|j: int| 0 <= j < bound && day_index((#[trigger] plans[j]).date) == k
}

/// Whether `d` is the date of one of the first `bound` planned days.
pub open spec fn date_among(plans: Seq<PlannedDay>, bound: int, d: Date) -> bool {
    exists|j: int| 0 <= j < bound && (#[trigger] plans[j]).date == d
}

/// The ASCII bytes `Commit YYYY-MM-DD` for the given date.
pub open spec fn commit_message_spec(d: Date) -> Seq<u8> {
    seq![67u8, 111u8, 109u8, 109u8, 105u8, 116u8, 32u8] + date_label_spec(d)
}

/// The message carried by every request of a day: the word `Commit`
/// followed by the day's date.
pub fn commit_message(d: &Date) -> (r: Vec<u8>)
    requires
        d.valid(),
    ensures
        r@ == commit_message_spec(*d),
{
    let mut v: Vec<u8> = Vec::new();
    v.push(67);
    v.push(111);
    v.push(109);
    v.push(109);
    v.push(105);
    v.push(116);
    v.push(32);
    let mut label = d.label();
    v.append(&mut label);
    proof {
        assert(v@ =~= commit_message_spec(*d));
    }
    v
}

/// How many requests of `s` fall on day index `k`.
pub open spec fn request_count_on(s: Seq<CommitRequest>, k: int) -> int
    decreases s.len(),
{
    if s.len() == 0 {
        0
    } else {
        request_count_on(s.drop_last(), k) + if day_index(s.last().date) == k {
            1int
        } else {
            0int
        }
    }
}

pub proof fn lemma_request_count_push(s: Seq<CommitRequest>, r: CommitRequest, k: int)
    ensures
        request_count_on(s.push(r), k) == request_count_on(s, k) + if day_index(r.date) == k {
            1int
        } else {
            0int
        },
{
    assert(s.push(r).drop_last() =~= s);
    assert(s.push(r).last() == r);
}

pub proof fn lemma_request_count_nonneg(s: Seq<CommitRequest>, k: int)
    ensures
        request_count_on(s, k) >= 0,
    decreases s.len(),
{
    if s.len() > 0 {
        lemma_request_count_nonneg(s.drop_last(), k);
    }
}

/// The decision for one day as a function of the two draws: the weekend
/// filter first, then the inclusion gate, then the drawn count.
pub open spec fn spec_plan_day(
    d: Date,
    cfg: ScheduleConfig,
    gate_draw: int,
    count_draw: int,
) -> DayPlan {
    if cfg.workdays_only && is_weekend_day(d) {
        DayPlan::Skipped
    } else if gate_draw >= cfg.inclusion_probability {
        DayPlan::Skipped
    } else {
        DayPlan::Commits { count: count_draw as u32 }
    }
}

/// Decides one calendar day: skips Saturdays and Sundays outright when the
/// configuration asks for workdays only (consuming no draw), then draws the
/// inclusion gate, and for an included day draws a commit count between 1
/// and the configured maximum.
pub fn plan_day(date: &Date, cfg: &ScheduleConfig, rng: &mut rand::rngs::ThreadRng) -> (p: DayPlan)
    requires
        date.valid(),
        cfg.valid(),
    ensures
        exists|g: int, c: int|
            0 <= g < PROBABILITY_SCALE && 1 <= c <= cfg.max_commits_per_day && p == spec_plan_day(
                *date,
                *cfg,
                g,
                c,
            ),
        cfg.workdays_only && is_weekend_day(*date) ==> p == DayPlan::Skipped,
        cfg.inclusion_probability == 0 ==> p == DayPlan::Skipped,
        cfg.inclusion_probability == PROBABILITY_SCALE && !(cfg.workdays_only && is_weekend_day(
            *date,
        )) ==> p is Commits,
        p matches DayPlan::Commits { count } ==> 1 <= count <= cfg.max_commits_per_day && !(
        cfg.workdays_only && is_weekend_day(*date)),
{
    if cfg.workdays_only && date.is_weekend() {
        proof {
            assert(spec_plan_day(*date, *cfg, 0, 1) == DayPlan::Skipped);
        }
        DayPlan::Skipped
    } else {
        let gate = draw_below(rng, PROBABILITY_SCALE);
        if gate >= cfg.inclusion_probability {
            proof {
                assert(spec_plan_day(*date, *cfg, gate as int, 1) == DayPlan::Skipped);
            }
            DayPlan::Skipped
        } else {
            let count = 1 + draw_below(rng, cfg.max_commits_per_day);
            proof {
                assert(spec_plan_day(*date, *cfg, gate as int, count as int) == (DayPlan::Commits {
                    count,
                }));
            }
            DayPlan::Commits { count }
        }
    }
}

/// Walks the range one day at a time and collects the included days in
/// ascending date order, each with its drawn commit count.
pub fn plan_range(range: &DateRange, cfg: &ScheduleConfig) -> (plans: Vec<PlannedDay>)
    requires
        range.valid(),
        cfg.valid(),
    ensures
        forall|j: int|
            0 <= j < plans@.len() ==> (#[trigger] plans@[j]).date.valid() && range.contains(
                day_index(plans@[j].date),
            ) && 1 <= plans@[j].count <= cfg.max_commits_per_day,
        forall|j1: int, j2: int|
            0 <= j1 < j2 < plans@.len() ==> day_index(plans@[j1].date) < day_index(
                plans@[j2].date,
            ),
        cfg.workdays_only ==> forall|j: int|
            0 <= j < plans@.len() ==> !is_weekend_day((#[trigger] plans@[j]).date),
        day_index(range.start_date) > day_index(range.end_date) ==> plans@.len() == 0,
        cfg.inclusion_probability == 0 ==> plans@.len() == 0,
        cfg.inclusion_probability == PROBABILITY_SCALE ==> forall|k: int|
            range.contains(k) && (cfg.workdays_only ==> !is_weekend_index(k))
                ==> #[trigger] day_planned(plans@, plans@.len() as int, k),
        cfg.inclusion_probability == PROBABILITY_SCALE && !cfg.workdays_only ==> plans@.len()
            == range.day_count() && forall|j: int|
            0 <= j < plans@.len() ==> day_index((#[trigger] plans@[j]).date) == day_index(
                range.start_date,
            ) + j,
{
    let mut plans: Vec<PlannedDay> = Vec::new();
    let start_num = range.start_date.day_number();
    let end_num = range.end_date.day_number();
    if start_num > end_num {
        return plans;
    }
    let mut rng = fresh_rng();
    let mut cur = range.start_date;
    let mut cur_num = start_num;
    let mut done = false;
    let ghost mut processed: int = start_num as int;
    while !done
        invariant
            range.valid(),
            cfg.valid(),
            cur.valid(),
            cur_num == day_index(cur),
            start_num == day_index(range.start_date),
            end_num == day_index(range.end_date),
            start_num <= cur_num <= end_num,
            !done ==> processed == cur_num,
            done ==> processed == end_num + 1,
            forall|j: int|
                0 <= j < plans@.len() ==> (#[trigger] plans@[j]).date.valid() && start_num
                    <= day_index(plans@[j].date) < processed && 1 <= plans@[j].count
                    <= cfg.max_commits_per_day,
            forall|j1: int, j2: int|
                0 <= j1 < j2 < plans@.len() ==> day_index(plans@[j1].date) < day_index(
                    plans@[j2].date,
                ),
            cfg.workdays_only ==> forall|j: int|
                0 <= j < plans@.len() ==> !is_weekend_day((#[trigger] plans@[j]).date),
            cfg.inclusion_probability == 0 ==> plans@.len() == 0,
            cfg.inclusion_probability == PROBABILITY_SCALE ==> forall|k: int|
                start_num <= k < processed && (cfg.workdays_only ==> !is_weekend_index(k))
                    ==> #[trigger] day_planned(plans@, plans@.len() as int, k),
            cfg.inclusion_probability == PROBABILITY_SCALE && !cfg.workdays_only ==> plans@.len()
                == processed - start_num && forall|j: int|
                0 <= j < plans@.len() ==> day_index((#[trigger] plans@[j]).date) == start_num + j,
        decreases end_num + 1 - processed,
    {
        let plan = plan_day(&cur, cfg, &mut rng);
        match plan {
            DayPlan::Skipped => {
                proof {
                    if cfg.inclusion_probability == PROBABILITY_SCALE {
                        // only the weekend filter skips a day at full probability
                        assert(cfg.workdays_only && is_weekend_day(cur));
                        assert(is_weekend_index(cur_num as int));
                    }
                }
            },
            DayPlan::Commits { count } => {
                let ghost old_plans = plans@;
                plans.push(PlannedDay { date: cur, count });
                proof {
                    assert(plans@ == old_plans.push(PlannedDay { date: cur, count }));
                    if cfg.inclusion_probability == PROBABILITY_SCALE {
                        assert forall|k: int|
                            start_num <= k < processed + 1 && (cfg.workdays_only
                                ==> !is_weekend_index(k)) implies #[trigger] day_planned(
                            plans@,
                            plans@.len() as int,
                            k,
                        ) by {
                            if k < processed {
                                assert(day_planned(old_plans, old_plans.len() as int, k));
                                let j = choose|j: int|
                                    0 <= j < old_plans.len() && day_index(
                                        (#[trigger] old_plans[j]).date,
                                    ) == k;
                                assert(plans@[j] == old_plans[j]);
                                assert(day_planned(plans@, plans@.len() as int, k));
                            } else {
                                let j = old_plans.len() as int;
                                assert(day_index(plans@[j].date) == k);
                                assert(day_planned(plans@, plans@.len() as int, k));
                            }
                        }
                    }
                }
            },
        }
        proof {
            processed = processed + 1;
        }
        if cur_num == end_num {
            done = true;
        } else {
            proof {
                lemma_day_index_bounds(range.end_date);
                lemma_last_date_index();
                if cur.year == 9999 && cur.month == 12 && cur.day == 31 {
                    assert(cur == (Date { year: 9999, month: 12, day: 31 }));
                    assert(false);
                }
            }
            cur = cur.succ();
            cur_num = cur_num + 1;
        }
    }
    plans
}

/// Turns the plan into the emitted request stream: for each included day,
/// in order, as many requests as the day's count, all carrying that day's
/// date and message.
pub fn expand_requests(plans: &Vec<PlannedDay>) -> (r: Vec<CommitRequest>)
    requires
        forall|j: int| 0 <= j < plans@.len() ==> (#[trigger] plans@[j]).date.valid(),
        forall|j1: int, j2: int|
            0 <= j1 < j2 < plans@.len() ==> day_index(plans@[j1].date) < day_index(
                plans@[j2].date,
            ),
    ensures
        forall|i: int|
            0 <= i < r@.len() ==> (#[trigger] r@[i]).date.valid() && r@[i].message@
                == commit_message_spec(r@[i].date),
        forall|i: int|
            0 <= i < r@.len() ==> date_among(plans@, plans@.len() as int, (#[trigger] r@[i]).date),
        forall|i1: int, i2: int|
            0 <= i1 < i2 < r@.len() ==> day_index(r@[i1].date) <= day_index(r@[i2].date),
        forall|j: int|
            0 <= j < plans@.len() ==> request_count_on(r@, day_index((#[trigger] plans@[j]).date))
                == plans@[j].count,
        forall|k: int|
            !day_planned(plans@, plans@.len() as int, k) ==> #[trigger] request_count_on(r@, k)
                == 0,
        plans@.len() == 0 ==> r@.len() == 0,
{
    let mut r: Vec<CommitRequest> = Vec::new();
    let mut j: usize = 0;
    while j < plans.len()
        invariant
            forall|j2: int| 0 <= j2 < plans@.len() ==> (#[trigger] plans@[j2]).date.valid(),
            forall|j1: int, j2: int|
                0 <= j1 < j2 < plans@.len() ==> day_index(plans@[j1].date) < day_index(
                    plans@[j2].date,
                ),
            j <= plans@.len(),
            forall|i: int|
                0 <= i < r@.len() ==> (#[trigger] r@[i]).date.valid() && r@[i].message@
                    == commit_message_spec(r@[i].date),
            forall|i: int|
                0 <= i < r@.len() ==> date_among(plans@, j as int, (#[trigger] r@[i]).date),
            forall|i1: int, i2: int|
                0 <= i1 < i2 < r@.len() ==> day_index(r@[i1].date) <= day_index(r@[i2].date),
            forall|j2: int|
                0 <= j2 < j ==> request_count_on(r@, day_index((#[trigger] plans@[j2]).date))
                    == plans@[j2].count,
            forall|k: int|
                !day_planned(plans@, j as int, k) ==> #[trigger] request_count_on(r@, k) == 0,
            j == 0 ==> r@.len() == 0,
        decreases plans@.len() - j,
    {
        let pd = plans[j];
        proof {
            assert forall|i: int| 0 <= i < r@.len() implies day_index(
                (#[trigger] r@[i]).date,
            ) <= day_index(pd.date) by {
                assert(date_among(plans@, j as int, r@[i].date));
                let j2 = choose|j2: int|
                    0 <= j2 < j && (#[trigger] plans@[j2]).date == r@[i].date;
                if j2 < j as int {
                    assert(day_index(plans@[j2].date) < day_index(plans@[j as int].date));
                }
            }
            assert(!day_planned(plans@, j as int, day_index(pd.date))) by {
                if day_planned(plans@, j as int, day_index(pd.date)) {
                    let j2 = choose|j2: int|
                        0 <= j2 < j && day_index((#[trigger] plans@[j2]).date) == day_index(
                            pd.date,
                        );
                    assert(day_index(plans@[j2].date) < day_index(plans@[j as int].date));
                    assert(false);
                }
            }
            assert(request_count_on(r@, day_index(pd.date)) == 0);
        }
        let mut c: u32 = 0;
        while c < pd.count
            invariant
                forall|j2: int| 0 <= j2 < plans@.len() ==> (#[trigger] plans@[j2]).date.valid(),
                forall|j1: int, j2: int|
                    0 <= j1 < j2 < plans@.len() ==> day_index(plans@[j1].date) < day_index(
                        plans@[j2].date,
                    ),
                j < plans@.len(),
                pd == plans@[j as int],
                c <= pd.count,
                forall|i: int|
                    0 <= i < r@.len() ==> (#[trigger] r@[i]).date.valid() && r@[i].message@
                        == commit_message_spec(r@[i].date),
                forall|i: int|
                    0 <= i < r@.len() ==> date_among(plans@, j + 1 as int, (#[trigger] r@[i]).date),
                forall|i: int|
                    0 <= i < r@.len() ==> day_index((#[trigger] r@[i]).date) <= day_index(pd.date),
                forall|i1: int, i2: int|
                    0 <= i1 < i2 < r@.len() ==> day_index(r@[i1].date) <= day_index(r@[i2].date),
                forall|j2: int|
                    0 <= j2 < j ==> request_count_on(r@, day_index((#[trigger] plans@[j2]).date))
                        == plans@[j2].count,
                request_count_on(r@, day_index(pd.date)) == c,
                forall|k: int|
                    !day_planned(plans@, j + 1 as int, k) ==> #[trigger] request_count_on(r@, k)
                        == 0,
            decreases pd.count - c,
        {
            let msg = commit_message(&pd.date);
            let req = CommitRequest { date: pd.date, message: msg };
            let ghost old_r = r@;
            r.push(req);
            proof {
                assert(r@ == old_r.push(req));
                assert forall|k: int|
                    request_count_on(r@, k) == request_count_on(old_r, k) + if day_index(req.date)
                        == k {
                        1int
                    } else {
                        0int
                    } by {
                    lemma_request_count_push(old_r, req, k);
                }
                assert forall|j2: int| 0 <= j2 < j implies request_count_on(
                    r@,
                    day_index((#[trigger] plans@[j2]).date),
                ) == plans@[j2].count by {
                    assert(day_index(plans@[j2].date) != day_index(pd.date));
                }
                assert(date_among(plans@, j + 1 as int, req.date)) by {
                    assert((plans@[j as int]).date == req.date);
                }
                assert forall|k: int| !day_planned(plans@, j + 1 as int, k) implies #[trigger]
                request_count_on(r@, k) == 0 by {
                    assert(day_index((plans@[j as int]).date) != k);
                    assert(request_count_on(old_r, k) == 0);
                }
            }
            c = c + 1;
        }
        j = j + 1;
    }
    r
}

/// Produces the whole run's commit requests: the plan of the range expanded
/// into one request per planned commit, in ascending date order.
pub fn generate_schedule(range: &DateRange, cfg: &ScheduleConfig) -> (r: Vec<CommitRequest>)
    requires
        range.valid(),
        cfg.valid(),
    ensures
        forall|i: int|
            0 <= i < r@.len() ==> (#[trigger] r@[i]).date.valid() && range.contains(
                day_index(r@[i].date),
            ) && r@[i].message@ == commit_message_spec(r@[i].date),
        forall|i1: int, i2: int|
            0 <= i1 < i2 < r@.len() ==> day_index(r@[i1].date) <= day_index(r@[i2].date),
        cfg.workdays_only ==> forall|i: int|
            0 <= i < r@.len() ==> !is_weekend_day((#[trigger] r@[i]).date),
        day_index(range.start_date) > day_index(range.end_date) ==> r@.len() == 0,
        cfg.inclusion_probability == 0 ==> r@.len() == 0,
        forall|k: int| 0 <= #[trigger] request_count_on(r@, k) <= cfg.max_commits_per_day,
        cfg.inclusion_probability == PROBABILITY_SCALE ==> forall|k: int|
            range.contains(k) && (cfg.workdays_only ==> !is_weekend_index(k))
                ==> #[trigger] request_count_on(r@, k) >= 1,
{
    let plans = plan_range(range, cfg);
    let r = expand_requests(&plans);
    proof {
        let n = plans@.len() as int;
        assert forall|i: int| 0 <= i < r@.len() implies (#[trigger] r@[i]).date.valid()
            && range.contains(day_index(r@[i].date)) && r@[i].message@ == commit_message_spec(
            r@[i].date,
        ) by {
            assert(date_among(plans@, n, r@[i].date));
            let j = choose|j: int| 0 <= j < n && (#[trigger] plans@[j]).date == r@[i].date;
        }
        if cfg.workdays_only {
            assert forall|i: int| 0 <= i < r@.len() implies !is_weekend_day(
                (#[trigger] r@[i]).date,
            ) by {
                assert(date_among(plans@, n, r@[i].date));
                let j = choose|j: int| 0 <= j < n && (#[trigger] plans@[j]).date == r@[i].date;
            }
        }
        assert forall|k: int| 0 <= #[trigger] request_count_on(r@, k)
            <= cfg.max_commits_per_day by {
            lemma_request_count_nonneg(r@, k);
            if day_planned(plans@, n, k) {
                let j = choose|j: int| 0 <= j < n && day_index((#[trigger] plans@[j]).date) == k;
                assert(request_count_on(r@, k) == plans@[j].count);
            } else {
                assert(request_count_on(r@, k) == 0);
            }
        }
        if cfg.inclusion_probability == PROBABILITY_SCALE {
            assert forall|k: int|
                range.contains(k) && (cfg.workdays_only ==> !is_weekend_index(k))
                    implies #[trigger] request_count_on(r@, k) >= 1 by {
                assert(day_planned(plans@, n, k));
                let j = choose|j: int| 0 <= j < n && day_index((#[trigger] plans@[j]).date) == k;
                assert(request_count_on(r@, k) == plans@[j].count);
            }
        }
    }
    r
}

} // verus!
