//! What holds of rate limits from end to end, said of the group and the limit that tasks name.

use vstd::prelude::*;

verus! {

use crate::queue::{
    after_batch, answer_for, are_answers, are_batch_steps, asks_limiter, is_batch_step,
    limiter_allows, requests_of, saved_step_of, start_step_of, windows_after, BatchStep, QueueView,
    StartStepView,
};
use crate::rate_limiter::{
    after_request, counted, counts, grants_of, grants_start, lookup, WindowView,
};
use crate::task::TaskView;
use crate::timestamp::{elapsed_seconds, Instant};

/// Every task that names a group and a limit asks the limiter, in that group and under that limit,
/// whatever else it holds, and no other task does. A task that was saved does so once it is due.
pub proof fn limiter_is_asked_by_group_and_limit(task: TaskView, now: Instant)
    ensures
        task.rate_limit_group is Some && task.max_per_minute is Some ==> start_step_of(task) == (
        StartStepView::AskLimiter {
            group: task.rate_limit_group.unwrap(),
            limit: task.max_per_minute.unwrap(),
        }),
        task.rate_limit_group is None || task.max_per_minute is None ==> start_step_of(task)
            == StartStepView::Start,
        asks_limiter(task) <==> task.rate_limit_group is Some && task.max_per_minute is Some,
        ({
            let due = (task.execute_at.secs < now.secs || task.execute_at.secs == now.secs
                && task.execute_at.nanos <= now.nanos) && (task.retry_after_time.secs < now.secs
                || task.retry_after_time.secs == now.secs && task.retry_after_time.nanos
                <= now.nanos);
            &&& !due ==> saved_step_of(task, now) == StartStepView::Wait
            &&& due && task.rate_limit_group is Some && task.max_per_minute is Some
                ==> saved_step_of(task, now) == (StartStepView::AskLimiter {
                group: task.rate_limit_group.unwrap(),
                limit: task.max_per_minute.unwrap(),
            })
            &&& due && (task.rate_limit_group is None || task.max_per_minute is None)
                ==> saved_step_of(task, now) == StartStepView::Start
        }),
{
}

/// A task of a batch gets the answer of the limiter in its own place if it names a group and a
/// limit, nothing where the limiter could not answer, and yes if it does not ask.
pub proof fn each_task_gets_its_own_answer(
    tasks: Seq<TaskView>,
    answers: Option<Seq<bool>>,
    k: int,
)
    requires
        0 <= k < tasks.len(),
    ensures
        requests_of(tasks, answers).len() == tasks.len(),
        requests_of(tasks, answers)[k].0 == tasks[k],
        tasks[k].rate_limit_group is None || tasks[k].max_per_minute is None ==> requests_of(
            tasks,
            answers,
        )[k].1 == Some(true),
        tasks[k].rate_limit_group is Some && tasks[k].max_per_minute is Some ==> {
            &&& answers is None ==> requests_of(tasks, answers)[k].1 is None
            &&& answers matches Some(given) ==> {
                &&& k < given.len() ==> requests_of(tasks, answers)[k].1 == Some(given[k])
                &&& k >= given.len() ==> requests_of(tasks, answers)[k].1 is None
            }
        },
{
}

/// The starts that count are those of the last sixty seconds, and a start is granted exactly while
/// there are fewer of them than the limit. What is kept on record is those, and a granted start.
pub proof fn starts_count_for_sixty_seconds(
    windows: Map<Seq<char>, WindowView>,
    group: Seq<char>,
    limit: int,
    now: Instant,
)
    ensures
        ({
            let recent = |grant: Instant| elapsed_seconds(now, grant) < 60;
            let kept = if windows.contains_key(group) {
                windows[group].grants.filter(recent)
            } else {
                Seq::empty()
            };
            let window = lookup(windows, group);
            &&& grants_start(window, limit, now) <==> kept.len() < limit
            &&& kept.len() < limit ==> after_request(window, limit, now).grants == kept.push(now)
            &&& kept.len() >= limit ==> after_request(window, limit, now).grants == kept
        }),
{
    reveal(Seq::filter);
    let recent = |grant: Instant| elapsed_seconds(now, grant) < 60;
    assert(recent =~= (|grant: Instant| counts(grant, now)));
    assert(counted(Seq::empty(), now) =~= Seq::empty());
}

/// The windows of all groups after a run of tasks, each of which asks at its time if it names a
/// group and a limit.
pub open spec fn windows_of_run(
    windows: Map<Seq<char>, WindowView>,
    run: Seq<(TaskView, Instant)>,
) -> Map<Seq<char>, WindowView>
    decreases run.len(),
{
    if run.len() == 0 {
        windows
    } else {
        let before = windows_of_run(windows, run.drop_last());
        match (run.last().0.rate_limit_group, run.last().0.max_per_minute) {
            (Some(group), Some(limit)) => before.insert(
                group,
                after_request(lookup(before, group), limit as int, run.last().1),
            ),
            _ => before,
        }
    }
}

/// Whether the limiter lets the task at place `i` of a run start.
pub open spec fn passes_in_run(
    windows: Map<Seq<char>, WindowView>,
    run: Seq<(TaskView, Instant)>,
    i: int,
) -> bool {
    match (run[i].0.rate_limit_group, run[i].0.max_per_minute) {
        (Some(group), Some(limit)) => grants_start(
            lookup(windows_of_run(windows, run.take(i)), group),
            limit as int,
            run[i].1,
        ),
        _ => true,
    }
}

/// The places of a run at which a task of `group` under `limit` may start.
pub open spec fn passed(
    windows: Map<Seq<char>, WindowView>,
    run: Seq<(TaskView, Instant)>,
    group: Seq<char>,
    limit: i32,
) -> Set<int> {
    Set::new(
        |i: int|
            0 <= i < run.len() && run[i].0.rate_limit_group == Some(group)
                && run[i].0.max_per_minute == Some(limit) && passes_in_run(windows, run, i),
    )
}

/// The times of a run at which starts of `group` are granted.
spec fn granted_to(
    windows: Map<Seq<char>, WindowView>,
    run: Seq<(TaskView, Instant)>,
    group: Seq<char>,
) -> Seq<Instant>
    decreases run.len(),
{
    if run.len() == 0 {
        Seq::empty()
    } else {
        let earlier = granted_to(windows, run.drop_last(), group);
        if run.last().0.rate_limit_group == Some(group) && run.last().0.max_per_minute is Some
            && grants_start(
            lookup(windows_of_run(windows, run.drop_last()), group),
            run.last().0.max_per_minute.unwrap() as int,
            run.last().1,
        ) {
            earlier.push(run.last().1)
        } else {
            earlier
        }
    }
}

spec fn recent_run(run: Seq<(TaskView, Instant)>) -> bool {
    forall|i: int, j: int|
        0 <= i <= j < run.len() ==> elapsed_seconds((#[trigger] run[j]).1, (#[trigger] run[i]).1)
            < 60
}

proof fn lemma_recent(grants: Seq<Instant>, now: Instant)
    requires
        forall|i: int| 0 <= i < grants.len() ==> elapsed_seconds(now, #[trigger] grants[i]) < 60,
    ensures
        counted(grants, now) == grants,
    decreases grants.len(),
{
    reveal(Seq::filter);
    if grants.len() > 0 {
        let init = grants.drop_last();
        assert forall|i: int| 0 <= i < init.len() implies elapsed_seconds(now, #[trigger] init[i])
            < 60 by {
            assert(elapsed_seconds(now, grants[i]) < 60);
        }
        lemma_recent(init, now);
        assert(elapsed_seconds(now, grants[grants.len() - 1]) < 60);
        assert(init.push(grants.last()) =~= grants);
    }
}

/// What a run was granted is on record, and counts at the next request of its minute.
proof fn lemma_run_is_on_record(
    windows: Map<Seq<char>, WindowView>,
    run: Seq<(TaskView, Instant)>,
    group: Seq<char>,
) -> (older: Seq<Instant>)
    requires
        recent_run(run),
    ensures
        grants_of(lookup(windows_of_run(windows, run), group)) == older + granted_to(
            windows,
            run,
            group,
        ),
        forall|g: int|
            0 <= g < granted_to(windows, run, group).len() ==> exists|k: int|
                0 <= k < run.len() && (#[trigger] run[k]).1 == #[trigger] granted_to(
                    windows,
                    run,
                    group,
                )[g],
    decreases run.len(), 1int,
{
    if run.len() == 0 {
        let older = grants_of(lookup(windows, group));
        assert(older + Seq::<Instant>::empty() =~= older);
        older
    } else {
        let init = run.drop_last();
        let now = run.last().1;
        lemma_shorter_run_is_recent(run);
        let older = lemma_run_is_on_record(windows, init, group);
        let fresh = granted_to(windows, init, group);
        let all = granted_to(windows, run, group);
        lemma_fresh_counts(windows, run, group);
        assert forall|g: int| 0 <= g < all.len() implies exists|k: int|
            0 <= k < run.len() && (#[trigger] run[k]).1 == #[trigger] all[g] by {
            if g < fresh.len() {
                assert(all[g] == fresh[g]);
                let k = choose|k: int|
                    0 <= k < init.len() && (#[trigger] init[k]).1 == fresh[g];
                assert(run[k].1 == all[g]);
            } else {
                assert(run[run.len() - 1].1 == all[g]);
            }
        }
        let task = run.last().0;
        if task.rate_limit_group == Some(group) && task.max_per_minute is Some {
            Seq::filter_distributes_over_add(older, fresh, |g: Instant| counts(g, now));
            let kept = counted(older, now);
            assert(counted(older + fresh, now) == kept + fresh);
            assert((kept + fresh).push(now) =~= kept + fresh.push(now));
            kept
        } else {
            older
        }
    }
}

proof fn lemma_shorter_run_is_recent(run: Seq<(TaskView, Instant)>)
    requires
        recent_run(run),
        run.len() > 0,
    ensures
        recent_run(run.drop_last()),
{
    let init = run.drop_last();
    assert forall|i: int, j: int| 0 <= i <= j < init.len() implies elapsed_seconds(
        (#[trigger] init[j]).1,
        (#[trigger] init[i]).1,
    ) < 60 by {
        assert(elapsed_seconds(run[j].1, run[i].1) < 60);
    }
}

/// What was granted earlier in the minute counts at the last request of it.
proof fn lemma_fresh_counts(
    windows: Map<Seq<char>, WindowView>,
    run: Seq<(TaskView, Instant)>,
    group: Seq<char>,
)
    requires
        recent_run(run),
        run.len() > 0,
    ensures
        counted(granted_to(windows, run.drop_last(), group), run.last().1) == granted_to(
            windows,
            run.drop_last(),
            group,
        ),
    decreases run.len(), 0int,
{
    let init = run.drop_last();
    let fresh = granted_to(windows, init, group);
    lemma_shorter_run_is_recent(run);
    let older = lemma_run_is_on_record(windows, init, group);
    assert forall|g: int| 0 <= g < fresh.len() implies elapsed_seconds(
        run.last().1,
        #[trigger] fresh[g],
    ) < 60 by {
        let k = choose|k: int| 0 <= k < init.len() && (#[trigger] init[k]).1 == fresh[g];
        assert(elapsed_seconds(run[run.len() - 1].1, run[k].1) < 60);
    }
    lemma_recent(fresh, run.last().1);
}

/// Of the tasks of a run that name one group and one limit, no more may start within a minute than
/// the limit, whatever else they hold, whatever tasks come between them and whatever came before.
pub proof fn run_starts_within_the_limit(
    windows: Map<Seq<char>, WindowView>,
    run: Seq<(TaskView, Instant)>,
    group: Seq<char>,
    limit: i32,
)
    requires
        forall|i: int, j: int|
            0 <= i <= j < run.len() ==> elapsed_seconds(
                (#[trigger] run[j]).1,
                (#[trigger] run[i]).1,
            ) < 60,
    ensures
        passed(windows, run, group, limit).finite(),
        passed(windows, run, group, limit).len() <= if limit <= 0 {
            0
        } else {
            limit as int
        },
{
    assert(recent_run(run));
    lemma_run_within_the_limit(windows, run, group, limit);
}

proof fn lemma_run_within_the_limit(
    windows: Map<Seq<char>, WindowView>,
    run: Seq<(TaskView, Instant)>,
    group: Seq<char>,
    limit: i32,
)
    requires
        recent_run(run),
    ensures
        passed(windows, run, group, limit).finite(),
        passed(windows, run, group, limit).len() <= granted_to(windows, run, group).len(),
        passed(windows, run, group, limit).len() <= if limit <= 0 {
            0
        } else {
            limit as int
        },
    decreases run.len(),
{
    let all = passed(windows, run, group, limit);
    if run.len() == 0 {
        assert(all =~= Set::empty());
    } else {
        let init = run.drop_last();
        let n = run.len() - 1;
        let now = run.last().1;
        let fewer = passed(windows, init, group, limit);
        lemma_shorter_run_is_recent(run);
        lemma_run_within_the_limit(windows, init, group, limit);
        assert(run.take(n) =~= init);
        assert forall|i: int| 0 <= i < n implies passes_in_run(windows, run, i) == #[trigger] passes_in_run(
            windows,
            init,
            i,
        ) && run[i] == init[i] by {
            assert(run.take(i) =~= init.take(i));
        }
        let older = lemma_run_is_on_record(windows, init, group);
        let fresh = granted_to(windows, init, group);
        lemma_fresh_counts(windows, run, group);
        Seq::filter_distributes_over_add(older, fresh, |g: Instant| counts(g, now));
        if all.contains(n) {
            assert(all =~= fewer.insert(n));
            assert(!fewer.contains(n));
            assert(counted(older + fresh, now).len() < limit);
        } else {
            assert(all =~= fewer);
        }
    }
}

/// The tasks of a batch that ask are a run in which all ask at one time.
pub proof fn batch_is_a_run(
    windows: Map<Seq<char>, WindowView>,
    tasks: Seq<TaskView>,
    now: Instant,
    answers: Seq<bool>,
)
    requires
        are_answers(windows, tasks, now, answers),
    ensures
        ({
            let run = Seq::new(tasks.len(), |i: int| (tasks[i], now));
            &&& windows_after(windows, tasks, now) == windows_of_run(windows, run)
            &&& answers.len() == tasks.len()
            &&& forall|i: int|
                0 <= i < tasks.len() ==> #[trigger] answers[i] == passes_in_run(windows, run, i)
        }),
{
    let run = Seq::new(tasks.len(), |i: int| (tasks[i], now));
    assert forall|i: int| 0 <= i < tasks.len() implies #[trigger] answers[i] == passes_in_run(
        windows,
        run,
        i,
    ) by {
        assert(answers[i] == limiter_allows(
            windows_after(windows, tasks.take(i), now),
            tasks[i],
            now,
        ));
        lemma_batch_windows(windows, tasks.take(i), now);
        assert(run.take(i) =~= Seq::new(tasks.take(i).len(), |k: int| (tasks.take(i)[k], now)));
    }
    lemma_batch_windows(windows, tasks, now);
}

proof fn lemma_batch_windows(
    windows: Map<Seq<char>, WindowView>,
    tasks: Seq<TaskView>,
    now: Instant,
)
    ensures
        windows_after(windows, tasks, now) == windows_of_run(
            windows,
            Seq::new(tasks.len(), |i: int| (tasks[i], now)),
        ),
    decreases tasks.len(),
{
    let run = Seq::new(tasks.len(), |i: int| (tasks[i], now));
    if tasks.len() > 0 {
        let init = tasks.drop_last();
        lemma_batch_windows(windows, init, now);
        assert(run.drop_last() =~= Seq::new(init.len(), |i: int| (init[i], now)));
        assert(run.last() == (tasks.last(), now));
    }
}

/// A run that follows another goes on from the windows that the first one left.
pub proof fn runs_follow_each_other(
    windows: Map<Seq<char>, WindowView>,
    first: Seq<(TaskView, Instant)>,
    second: Seq<(TaskView, Instant)>,
)
    ensures
        windows_of_run(windows, first + second) == windows_of_run(
            windows_of_run(windows, first),
            second,
        ),
    decreases second.len(),
{
    if second.len() == 0 {
        assert(first + second =~= first);
    } else {
        runs_follow_each_other(windows, first, second.drop_last());
        assert((first + second).drop_last() =~= first + second.drop_last());
    }
}

/// A task that names a group and a limit starts only if the limiter answered yes to it.
pub proof fn task_with_a_limit_starts_only_if_granted(
    queue: QueueView,
    tasks: Seq<TaskView>,
    answers: Option<Seq<bool>>,
    now: Instant,
    steps: Seq<BatchStep>,
    i: int,
)
    requires
        are_batch_steps(queue, requests_of(tasks, answers), now, steps),
        0 <= i < tasks.len(),
        tasks[i].rate_limit_group is Some,
        tasks[i].max_per_minute is Some,
        steps[i] is Start,
    ensures
        answers matches Some(given) && i < given.len() && given[i],
{
    let requests = requests_of(tasks, answers);
    assert(is_batch_step(after_batch(queue, requests.take(i)), requests[i], now, steps[i]));
    assert(requests[i].1 == answer_for(tasks, answers, i));
}

/// Of the tasks of a batch that name one group and one limit, no more are started than the limit,
/// whatever else they hold.
pub proof fn batch_starts_within_the_limit(
    queue: QueueView,
    windows: Map<Seq<char>, WindowView>,
    tasks: Seq<TaskView>,
    asked: Instant,
    answers: Seq<bool>,
    now: Instant,
    steps: Seq<BatchStep>,
    group: Seq<char>,
    limit: i32,
)
    requires
        are_answers(windows, tasks, asked, answers),
        are_batch_steps(queue, requests_of(tasks, Some(answers)), now, steps),
    ensures
        ({
            let started = Set::new(
                |i: int|
                    0 <= i < tasks.len() && tasks[i].rate_limit_group == Some(group)
                        && tasks[i].max_per_minute == Some(limit) && steps[i] is Start,
            );
            &&& started.finite()
            &&& started.len() <= if limit <= 0 {
                0
            } else {
                limit as int
            }
        }),
{
    let run = Seq::new(tasks.len(), |i: int| (tasks[i], asked));
    let started = Set::new(
        |i: int|
            0 <= i < tasks.len() && tasks[i].rate_limit_group == Some(group)
                && tasks[i].max_per_minute == Some(limit) && steps[i] is Start,
    );
    batch_is_a_run(windows, tasks, asked, answers);
    assert forall|i: int, j: int| 0 <= i <= j < run.len() implies elapsed_seconds(
        (#[trigger] run[j]).1,
        (#[trigger] run[i]).1,
    ) < 60 by {}
    run_starts_within_the_limit(windows, run, group, limit);
    let allowed = passed(windows, run, group, limit);
    assert forall|i: int| started.contains(i) implies allowed.contains(i) by {
        task_with_a_limit_starts_only_if_granted(queue, tasks, Some(answers), now, steps, i);
        assert(answers[i] == passes_in_run(windows, run, i));
    }
    vstd::set_lib::lemma_len_subset(started, allowed);
}

} // verus!
