//! Rate limits: how many tasks of a group may start within a minute.

use vstd::prelude::*;

use crate::path::{with_file_name, PathPart};
use crate::text_map::TextMap;
use crate::timestamp::{seconds_between, utc_now, Timestamp};

verus! {

use crate::path::{named, parts_view, PathPartView};
use crate::timestamp::{elapsed_seconds, Instant};

/// Seconds that a start counts against the limit of its group.
pub const WINDOW_SECONDS: i64 = 60;

/// The rolling window of a group: when its tasks were granted their starts, oldest request first.
#[derive(Clone, Debug, PartialEq, Eq)]
pub struct RateWindow {
    pub grants: Vec<Timestamp>,
}

/// The value of a [`RateWindow`].
pub struct WindowView {
    pub grants: Seq<Instant>,
}

/// The points held by a sequence of timestamps.
pub open spec fn instants(times: Seq<Timestamp>) -> Seq<Instant> {
    times.map_values(|t: Timestamp| t@)
}

impl View for RateWindow {
    type V = WindowView;

    open spec fn view(&self) -> WindowView {
        WindowView { grants: instants(self.grants@) }
    }
}

/// The windows of all groups.
pub type RateTable = TextMap<RateWindow>;

/// Whether a start granted at `grant` counts at `now`: it is less than a minute old.
pub open spec fn counts(grant: Instant, now: Instant) -> bool {
    elapsed_seconds(now, grant) < WINDOW_SECONDS
}

/// The starts on record that count at `now`.
pub open spec fn counted(grants: Seq<Instant>, now: Instant) -> Seq<Instant> {
    grants.filter(|g: Instant| counts(g, now))
}

/// The starts on record.
pub open spec fn grants_of(window: Option<WindowView>) -> Seq<Instant> {
    match window {
        Some(w) => w.grants,
        None => Seq::empty(),
    }
}

/// Whether one more task may start at `now` under `limit`: fewer starts than that count.
pub open spec fn grants_start(window: Option<WindowView>, limit: int, now: Instant) -> bool {
    counted(grants_of(window), now).len() < limit
}

/// The window after a task asked to start at `now`.
pub open spec fn after_request(window: Option<WindowView>, limit: int, now: Instant) -> WindowView {
    let counting = counted(grants_of(window), now);
    WindowView {
        grants: if grants_start(window, limit, now) {
            counting.push(now)
        } else {
            counting
        },
    }
}

/// The window of `group`, if there is one.
pub open spec fn lookup(windows: Map<Seq<char>, WindowView>, group: Seq<char>) -> Option<
    WindowView,
> {
    if windows.contains_key(group) {
        Some(windows[group])
    } else {
        None
    }
}

/// The limiter of a store: it keeps its windows in a file next to the log of tasks.
#[derive(Clone)]
pub struct RateLimiter {
    file_path: Vec<PathPart>,
}

impl View for RateLimiter {
    type V = Seq<PathPartView>;

    closed spec fn view(&self) -> Seq<PathPartView> {
        parts_view(self.file_path@)
    }
}

impl RateLimiter {
    /// The limiter of the store whose log is at `tasks_path`.
    pub fn new(tasks_path: &Vec<PathPart>) -> (limiter: RateLimiter)
        ensures
            limiter@ == named(parts_view(tasks_path@), "rate_limits.json"@),
    {
        RateLimiter { file_path: with_file_name(tasks_path, "rate_limits.json") }
    }

    /// Where the windows are kept.
    pub fn file_path(&self) -> (path: &Vec<PathPart>)
        ensures
            parts_view(path@) == self@,
    {
        &self.file_path
    }

    /// Asks, now, for one more task of `group` to start under `limit`, and records the answer.
    pub fn check_and_increment(&self, windows: &mut RateTable, group: &str, limit: i32) -> (allow:
        bool)
        ensures
            exists|now: Instant|
                {
                    &&& now.is_clock_reading()
                    &&& allow == #[trigger] grants_start(
                        lookup(old(windows)@, group@),
                        limit as int,
                        now,
                    )
                    &&& final(windows)@ == old(windows)@.insert(
                        group@,
                        after_request(lookup(old(windows)@, group@), limit as int, now),
                    )
                },
    {
        let now = utc_now();
        let allow = self.check_and_increment_at(windows, group, limit, now);
        assert(now@.is_clock_reading());
        assert(allow == grants_start(lookup(old(windows)@, group@), limit as int, now@));
        allow
    }

    /// Asks, at `now`, for one more task of `group` to start under `limit`, and records the
    /// answer.
    pub fn check_and_increment_at(
        &self,
        windows: &mut RateTable,
        group: &str,
        limit: i32,
        now: Timestamp,
    ) -> (allow: bool)
        ensures
            allow == grants_start(lookup(old(windows)@, group@), limit as int, now@),
            final(windows)@ == old(windows)@.insert(
                group@,
                after_request(lookup(old(windows)@, group@), limit as int, now@),
            ),
    {
        let mut grants: Vec<Timestamp> = match windows.get(group) {
            Some(window) => counting(&window.grants, now),
            None => {
                reveal(Seq::filter);
                Vec::new()
            },
        };
        let ghost window = lookup(windows@, group@);
        assert(instants(grants@) =~= counted(grants_of(window), now@));
        let allow = limit > 0 && grants.len() < limit as usize;
        if allow {
            let ghost before = grants@;
            grants.push(now);
            assert(instants(grants@) =~= instants(before).push(now@));
        }
        windows.insert(group, RateWindow { grants });
        allow
    }
}

/// The starts of `grants` that count at `now`.
fn counting(grants: &Vec<Timestamp>, now: Timestamp) -> (kept: Vec<Timestamp>)
    ensures
        instants(kept@) == counted(instants(grants@), now@),
{
    let ghost all = instants(grants@);
    let mut kept: Vec<Timestamp> = Vec::new();
    let mut i: usize = 0;
    reveal(Seq::filter);
    assert(instants(kept@) =~= counted(all.take(0), now@));
    while i < grants.len()
        invariant
            all == instants(grants@),
            0 <= i <= grants@.len(),
            instants(kept@) == counted(all.take(i as int), now@),
        decreases grants.len() - i,
    {
        reveal(Seq::filter);
        let ghost before = kept@;
        assert(all.take(i + 1).drop_last() =~= all.take(i as int));
        assert(all.take(i + 1).last() == grants@[i as int]@);
        if seconds_between(now, grants[i]) < WINDOW_SECONDS {
            kept.push(grants[i]);
            assert(instants(kept@) =~= instants(before).push(grants@[i as int]@));
        }
        i = i + 1;
    }
    assert(all.take(i as int) =~= all);
    kept
}

/// The window of a group after it was asked at each of `times`, under one limit.
pub open spec fn after_requests(
    window: Option<WindowView>,
    limit: int,
    times: Seq<Instant>,
) -> Option<WindowView>
    decreases times.len(),
{
    if times.len() == 0 {
        window
    } else {
        Some(after_request(after_requests(window, limit, times.drop_last()), limit, times.last()))
    }
}

/// Those of `times` at which a request is granted, under one limit.
pub open spec fn granted_times(
    window: Option<WindowView>,
    limit: int,
    times: Seq<Instant>,
) -> Seq<Instant>
    decreases times.len(),
{
    if times.len() == 0 {
        Seq::empty()
    } else {
        let earlier = granted_times(window, limit, times.drop_last());
        if grants_start(after_requests(window, limit, times.drop_last()), limit, times.last()) {
            earlier.push(times.last())
        } else {
            earlier
        }
    }
}

/// How many of the requests made at `times` are granted, under one limit.
pub open spec fn granted(window: Option<WindowView>, limit: int, times: Seq<Instant>) -> int {
    granted_times(window, limit, times).len() as int
}

/// Whether no two of `times` are a minute apart or more, the later one taken from the earlier.
pub open spec fn within_a_minute(times: Seq<Instant>) -> bool {
    forall|i: int, j: int|
        0 <= i <= j < times.len() ==> counts(#[trigger] times[i], #[trigger] times[j])
}

/// Starts that all count are all counted.
proof fn lemma_all_count(grants: Seq<Instant>, now: Instant)
    requires
        forall|i: int| 0 <= i < grants.len() ==> counts(#[trigger] grants[i], now),
    ensures
        counted(grants, now) == grants,
    decreases grants.len(),
{
    reveal(Seq::filter);
    if grants.len() > 0 {
        let init = grants.drop_last();
        assert forall|i: int| 0 <= i < init.len() implies counts(#[trigger] init[i], now) by {
            assert(counts(grants[i], now));
        }
        lemma_all_count(init, now);
        assert(counts(grants[grants.len() - 1], now));
        assert(init.push(grants.last()) =~= grants);
    }
}

proof fn lemma_within_a_shorter_minute(times: Seq<Instant>)
    requires
        within_a_minute(times),
        times.len() > 0,
    ensures
        within_a_minute(times.drop_last()),
{
    let init = times.drop_last();
    assert forall|i: int, j: int| 0 <= i <= j < init.len() implies counts(
        #[trigger] init[i],
        #[trigger] init[j],
    ) by {
        assert(counts(times[i], times[j]));
    }
}

/// What was granted is on record, behind some of what was there before.
proof fn lemma_record(window: Option<WindowView>, limit: int, times: Seq<Instant>) -> (old_grants:
    Seq<Instant>)
    requires
        within_a_minute(times),
    ensures
        grants_of(after_requests(window, limit, times)) == old_grants + granted_times(
            window,
            limit,
            times,
        ),
        forall|i: int|
            0 <= i < granted_times(window, limit, times).len() ==> times.contains(
                #[trigger] granted_times(window, limit, times)[i],
            ),
    decreases times.len(),
{
    if times.len() == 0 {
        assert(grants_of(window) + Seq::<Instant>::empty() =~= grants_of(window));
        grants_of(window)
    } else {
        let init = times.drop_last();
        let now = times.last();
        lemma_within_a_shorter_minute(times);
        let earlier = lemma_record(window, limit, init);
        let fresh = granted_times(window, limit, init);
        assert forall|i: int| 0 <= i < fresh.len() implies counts(#[trigger] fresh[i], now) by {
            let k = choose|k: int| 0 <= k < init.len() && init[k] == fresh[i];
            assert(counts(times[k], times[times.len() - 1]));
        }
        lemma_all_count(fresh, now);
        let pred = |g: Instant| counts(g, now);
        Seq::filter_distributes_over_add(earlier, fresh, pred);
        let old_grants = counted(earlier, now);
        let all = granted_times(window, limit, times);
        assert(grants_of(after_requests(window, limit, times)) =~= old_grants + all);
        assert forall|i: int| 0 <= i < all.len() implies times.contains(#[trigger] all[i]) by {
            if i < fresh.len() {
                let k = choose|k: int| 0 <= k < init.len() && init[k] == fresh[i];
                assert(times[k] == all[i]);
            } else {
                assert(times[times.len() - 1] == all[i]);
            }
        }
        old_grants
    }
}

/// In any minute, wherever it lies and whatever came before it, no more starts are granted than
/// the limit.
pub proof fn no_minute_grants_more_than_the_limit(
    window: Option<WindowView>,
    limit: int,
    times: Seq<Instant>,
)
    requires
        within_a_minute(times),
    ensures
        granted(window, limit, times) <= if limit <= 0 {
            0
        } else {
            limit
        },
    decreases times.len(),
{
    if times.len() > 0 {
        let init = times.drop_last();
        let now = times.last();
        lemma_within_a_shorter_minute(times);
        no_minute_grants_more_than_the_limit(window, limit, init);
        let earlier = lemma_record(window, limit, init);
        let fresh = granted_times(window, limit, init);
        assert forall|i: int| 0 <= i < fresh.len() implies counts(#[trigger] fresh[i], now) by {
            let k = choose|k: int| 0 <= k < init.len() && init[k] == fresh[i];
            assert(counts(times[k], times[times.len() - 1]));
        }
        lemma_all_count(fresh, now);
        Seq::filter_distributes_over_add(earlier, fresh, |g: Instant| counts(g, now));
    }
}

/// Whether every one of `grants` counts at every one of `times`.
pub open spec fn all_count(grants: Seq<Instant>, times: Seq<Instant>) -> bool {
    forall|g: int, i: int|
        0 <= g < grants.len() && 0 <= i < times.len() ==> counts(
            #[trigger] grants[g],
            #[trigger] times[i],
        )
}

/// What is on record and what was granted in this minute counts at the last request of it.
proof fn lemma_minute_counts(grants: Seq<Instant>, times: Seq<Instant>, n: int)
    requires
        within_a_minute(times),
        all_count(grants, times),
        0 <= n < times.len(),
    ensures
        all_count(grants, times.drop_last()),
        counted(grants + times.take(n), times.last()) == grants + times.take(n),
{
    let all = grants + times.take(n);
    let last = times[times.len() - 1];
    assert forall|i: int| 0 <= i < all.len() implies counts(#[trigger] all[i], last) by {
        if i < grants.len() {
            assert(counts(grants[i], last));
        } else {
            assert(all[i] == times[i - grants.len()]);
            assert(counts(times[i - grants.len()], last));
        }
    }
    lemma_all_count(all, last);
    assert forall|g: int, i: int|
        0 <= g < grants.len() && 0 <= i < times.drop_last().len() implies counts(
        #[trigger] grants[g],
        #[trigger] times.drop_last()[i],
    ) by {
        assert(counts(grants[g], times[i]));
    }
}

/// How many of `n` requests fit under `limit` beside `taken` starts.
pub open spec fn fitting(limit: int, taken: nat, n: nat) -> int {
    if limit <= taken {
        0
    } else if n < limit - taken {
        n as int
    } else {
        limit - taken
    }
}

/// Whether exactly the first requests that fit are granted and on record.
pub open spec fn first_are_granted(
    window: Option<WindowView>,
    limit: int,
    times: Seq<Instant>,
) -> bool {
    let most = fitting(limit, grants_of(window).len(), times.len());
    &&& granted(window, limit, times) == most
    &&& granted_times(window, limit, times) == times.take(most)
    &&& grants_of(after_requests(window, limit, times)) == grants_of(window) + times.take(most)
}

/// While every start on record counts, exactly as many requests of a minute are granted as the
/// limit leaves room for, the first ones, and each is on record afterwards.
pub proof fn minute_grants_what_the_limit_leaves(
    window: Option<WindowView>,
    limit: int,
    times: Seq<Instant>,
)
    requires
        within_a_minute(times),
        all_count(grants_of(window), times),
    ensures
        first_are_granted(window, limit, times),
    decreases times.len(),
{
    if times.len() > 0 {
        let fewer = fitting(limit, grants_of(window).len(), times.drop_last().len());
        lemma_within_a_shorter_minute(times);
        lemma_minute_counts(grants_of(window), times, fewer);
        minute_grants_what_the_limit_leaves(window, limit, times.drop_last());
        lemma_one_more_is_granted(window, limit, times);
    } else {
        assert(times.take(0) =~= Seq::<Instant>::empty());
        assert(grants_of(window) + Seq::<Instant>::empty() =~= grants_of(window));
    }
}

proof fn lemma_one_more_is_granted(window: Option<WindowView>, limit: int, times: Seq<Instant>)
    requires
        times.len() > 0,
        first_are_granted(window, limit, times.drop_last()),
        ({
            let fewer = fitting(limit, grants_of(window).len(), times.drop_last().len());
            counted(grants_of(window) + times.take(fewer), times.last()) == grants_of(window)
                + times.take(fewer)
        }),
    ensures
        first_are_granted(window, limit, times),
{
    let grants = grants_of(window);
    let init = times.drop_last();
    let now = times.last();
    let fewer = fitting(limit, grants.len(), init.len());
    assert(init.take(fewer) =~= times.take(fewer));
    lemma_one_request(window, limit, times);
    if grants.len() + fewer < limit {
        assert(times.take(fewer).push(now) =~= times.take(fewer + 1));
        assert((grants + times.take(fewer)).push(now) =~= grants + times.take(fewer + 1));
    }
}

/// The last request, said of what was on record before it.
proof fn lemma_one_request(window: Option<WindowView>, limit: int, times: Seq<Instant>)
    requires
        times.len() > 0,
    ensures
        ({
            let before = grants_of(after_requests(window, limit, times.drop_last()));
            let counting = counted(before, times.last());
            let earlier = granted_times(window, limit, times.drop_last());
            &&& counting.len() < limit ==> grants_of(after_requests(window, limit, times))
                == counting.push(times.last()) && granted_times(window, limit, times)
                == earlier.push(times.last())
            &&& counting.len() >= limit ==> grants_of(after_requests(window, limit, times))
                == counting && granted_times(window, limit, times) == earlier
        }),
{
}

/// Of the requests that a new group makes within a minute, exactly the first ones up to the limit
/// are granted, and so many starts are on record.
pub proof fn fresh_group_is_granted_its_limit(limit: int, times: Seq<Instant>)
    requires
        within_a_minute(times),
    ensures
        ({
            let most = if limit <= 0 {
                0
            } else if times.len() < limit {
                times.len() as int
            } else {
                limit
            };
            &&& granted(None, limit, times) == most
            &&& grants_of(after_requests(None, limit, times)) == times.take(most)
        }),
{
    minute_grants_what_the_limit_leaves(None, limit, times);
    let most = fitting(limit, 0, times.len());
    assert(Seq::<Instant>::empty() + times.take(most) =~= times.take(most));
}

/// A request takes no other start off the count at its own time.
pub proof fn request_keeps_the_count(window: Option<WindowView>, limit: int, now: Instant)
    ensures
        counted(after_request(window, limit, now).grants, now).len() == counted(
            grants_of(window),
            now,
        ).len() + if grants_start(window, limit, now) {
            1int
        } else {
            0
        },
{
    let counting = counted(grants_of(window), now);
    let after = after_request(window, limit, now).grants;
    assert(counts(now, now));
    assert forall|i: int| 0 <= i < after.len() implies counts(#[trigger] after[i], now) by {
        if i < counting.len() {
            grants_of(window).lemma_filter_pred(|g: Instant| counts(g, now), i);
        }
    }
    lemma_all_count(after, now);
}

} // verus!
