//! What holds of the scripts of a storage over any run of ticks and failures.

use vstd::prelude::*;
use crate::script::ScriptView;
use crate::script_storage::{after_failure, fires, scripts_after_tick};

verus! {

/// What happens to a storage between two commands.
pub enum StorageEvent {
    /// The timer ticks at the instant `now`.
    Tick { now: u64 },
    /// A particle that the script `script` sent has failed, and the storage
    /// still had the record of that particle.
    Failed { script: Seq<char> },
}

/// The scripts after one event.
pub open spec fn after_event(
    scripts: Map<Seq<char>, ScriptView>,
    max_failures: u8,
    event: StorageEvent,
) -> Map<Seq<char>, ScriptView> {
    match event {
        StorageEvent::Tick { now } => scripts_after_tick(scripts, now),
        StorageEvent::Failed { script } => after_failure(scripts, script, max_failures),
    }
}

/// The scripts after the events `events`, in order.
pub open spec fn after_events(
    scripts: Map<Seq<char>, ScriptView>,
    max_failures: u8,
    events: Seq<StorageEvent>,
) -> Map<Seq<char>, ScriptView>
    decreases events.len(),
{
    if events.len() == 0 {
        scripts
    } else {
        after_event(
            after_events(scripts, max_failures, events.drop_last()),
            max_failures,
            events.last(),
        )
    }
}

/// Whether the event number `j` of `events` is a tick at which the script
/// `id` runs.
pub open spec fn runs_at(
    scripts: Map<Seq<char>, ScriptView>,
    max_failures: u8,
    events: Seq<StorageEvent>,
    id: Seq<char>,
    j: int,
) -> bool {
    &&& 0 <= j < events.len()
    &&& events[j] is Tick
    &&& fires(after_events(scripts, max_failures, events.take(j)), events[j]->now, id)
}

/// How many of `events` are failures of the script `id`.
pub open spec fn failures_of(events: Seq<StorageEvent>, id: Seq<char>) -> nat
    decreases events.len(),
{
    if events.len() == 0 {
        0
    } else if events.last() == (StorageEvent::Failed { script: id }) {
        failures_of(events.drop_last(), id) + 1
    } else {
        failures_of(events.drop_last(), id)
    }
}

/// A script that has just been added runs at the next tick, whenever that
/// tick comes and whether or not the script has an interval.
pub proof fn lemma_added_script_fires(
    scripts: Map<Seq<char>, ScriptView>,
    id: Seq<char>,
    src: Seq<char>,
    interval: Option<u64>,
    now: u64,
)
    ensures
        fires(
            scripts.insert(id, ScriptView { src, failures: 0, interval, executed_at: None }),
            now,
            id,
        ),
{
}

/// A script with an interval that runs at a tick stays in the storage and is
/// marked as run at that tick; one that does not run is left as it was.
pub proof fn lemma_tick_on_recurring(scripts: Map<Seq<char>, ScriptView>, id: Seq<char>, now: u64)
    requires
        scripts.contains_key(id),
        scripts[id].interval is Some,
    ensures
        scripts_after_tick(scripts, now).contains_key(id),
        scripts_after_tick(scripts, now)[id] == (if fires(scripts, now, id) {
            scripts[id].stamped(now)
        } else {
            scripts[id]
        }),
{
}

/// A script that has run at `last` and has the interval `interval` runs at a
/// tick only if the tick comes at least the interval after `last`.
pub proof fn lemma_run_waits_for_interval(
    scripts: Map<Seq<char>, ScriptView>,
    id: Seq<char>,
    last: u64,
    interval: u64,
    now: u64,
)
    requires
        scripts.contains_key(id),
        scripts[id].executed_at == Some(last),
        scripts[id].interval == Some(interval),
        fires(scripts, now, id),
    ensures
        now >= last + interval,
{
}

/// A failure of one of its particles changes neither the text of a script,
/// nor its interval, nor the instant at which it last ran.
pub proof fn lemma_failure_keeps_schedule(
    scripts: Map<Seq<char>, ScriptView>,
    failed: Seq<char>,
    max_failures: u8,
    id: Seq<char>,
)
    requires
        after_failure(scripts, failed, max_failures).contains_key(id),
    ensures
        scripts.contains_key(id),
        after_failure(scripts, failed, max_failures)[id].interval == scripts[id].interval,
        after_failure(scripts, failed, max_failures)[id].executed_at == scripts[id].executed_at,
        after_failure(scripts, failed, max_failures)[id].src == scripts[id].src,
{
}

/// No event brings a script into the storage.
pub proof fn lemma_gone_stays_gone(
    scripts: Map<Seq<char>, ScriptView>,
    max_failures: u8,
    events: Seq<StorageEvent>,
    id: Seq<char>,
    a: int,
    j: int,
)
    requires
        0 <= a <= j <= events.len(),
        !after_events(scripts, max_failures, events.take(a)).contains_key(id),
    ensures
        !after_events(scripts, max_failures, events.take(j)).contains_key(id),
    decreases j - a,
{
    if a < j {
        lemma_gone_stays_gone(scripts, max_failures, events, id, a, j - 1);
        assert(events.take(j).drop_last() == events.take(j - 1));
    }
}

/// After a script with an interval has run at the tick number `a`, it is,
/// before every later event at which the storage still holds it, marked as
/// run at an instant that is not before that tick, and its interval is the
/// same.
proof fn lemma_last_run(
    scripts: Map<Seq<char>, ScriptView>,
    max_failures: u8,
    events: Seq<StorageEvent>,
    id: Seq<char>,
    a: int,
    j: int,
)
    requires
        0 <= a < j <= events.len(),
        runs_at(scripts, max_failures, events, id, a),
        after_events(scripts, max_failures, events.take(a))[id].interval is Some,
        after_events(scripts, max_failures, events.take(j)).contains_key(id),
    ensures
        after_events(scripts, max_failures, events.take(j))[id].interval == after_events(
            scripts,
            max_failures,
            events.take(a),
        )[id].interval,
        after_events(scripts, max_failures, events.take(j))[id].executed_at is Some,
        after_events(scripts, max_failures, events.take(j))[id].executed_at.unwrap()
            >= events[a]->now,
    decreases j - a,
{
    let before = after_events(scripts, max_failures, events.take(j - 1));
    assert(events.take(j).drop_last() == events.take(j - 1));
    assert(events.take(j).last() == events[j - 1]);
    if j - 1 == a {
        lemma_tick_on_recurring(before, id, events[a]->now);
    } else {
        if !before.contains_key(id) {
            lemma_gone_stays_gone(scripts, max_failures, events, id, j - 1, j);
        }
        lemma_last_run(scripts, max_failures, events, id, a, j - 1);
        match events[j - 1] {
            StorageEvent::Tick { now } => {
                lemma_tick_on_recurring(before, id, now);
                if fires(before, now, id) {
                    lemma_run_waits_for_interval(
                        before,
                        id,
                        before[id].executed_at.unwrap(),
                        before[id].interval.unwrap(),
                        now,
                    );
                }
            },
            StorageEvent::Failed { script } => {
                lemma_failure_keeps_schedule(before, script, max_failures, id);
            },
        }
    }
}

/// Over any run of ticks and failures, two runs of a script with an interval
/// are at least the interval apart.
pub proof fn lemma_runs_are_an_interval_apart(
    scripts: Map<Seq<char>, ScriptView>,
    max_failures: u8,
    events: Seq<StorageEvent>,
    id: Seq<char>,
    a: int,
    b: int,
    interval: u64,
)
    requires
        a < b,
        runs_at(scripts, max_failures, events, id, a),
        runs_at(scripts, max_failures, events, id, b),
        after_events(scripts, max_failures, events.take(a))[id].interval == Some(interval),
    ensures
        events[b]->now >= events[a]->now + interval,
{
    lemma_last_run(scripts, max_failures, events, id, a, b);
    let before = after_events(scripts, max_failures, events.take(b));
    lemma_run_waits_for_interval(
        before,
        id,
        before[id].executed_at.unwrap(),
        interval,
        events[b]->now,
    );
}

/// A script without an interval runs at whatever tick finds it in the storage.
/// Over any run of ticks and failures it is gone from the storage after that
/// tick and runs at no later one.
pub proof fn lemma_single_shot_runs_once(
    scripts: Map<Seq<char>, ScriptView>,
    max_failures: u8,
    events: Seq<StorageEvent>,
    id: Seq<char>,
    a: int,
)
    requires
        0 <= a < events.len(),
        events[a] is Tick,
        after_events(scripts, max_failures, events.take(a)).contains_key(id),
        after_events(scripts, max_failures, events.take(a))[id].interval is None,
    ensures
        runs_at(scripts, max_failures, events, id, a),
        forall|j: int|
            a < j <= events.len() ==> !(#[trigger] after_events(
                scripts,
                max_failures,
                events.take(j),
            )).contains_key(id),
        forall|j: int| a < j < events.len() ==> !runs_at(scripts, max_failures, events, id, j),
{
    assert(events.take(a + 1).drop_last() == events.take(a));
    assert(!after_events(scripts, max_failures, events.take(a + 1)).contains_key(id));
    assert forall|j: int| a < j <= events.len() implies !(#[trigger] after_events(
        scripts,
        max_failures,
        events.take(j),
    )).contains_key(id) by {
        lemma_gone_stays_gone(scripts, max_failures, events, id, a + 1, j);
    }
}

/// Over any run of ticks and failures, a script that had not failed before
/// is gone from the storage once as many of its particles have failed as the
/// budget allows. While fewer have failed, the storage holds it if it has an
/// interval, and wherever the storage holds it, each failure is counted.
pub proof fn lemma_failure_budget(
    scripts: Map<Seq<char>, ScriptView>,
    max_failures: u8,
    events: Seq<StorageEvent>,
    id: Seq<char>,
)
    requires
        scripts.contains_key(id),
        scripts[id].failures == 0,
        1 <= max_failures,
    ensures
        failures_of(events, id) >= max_failures ==> !after_events(
            scripts,
            max_failures,
            events,
        ).contains_key(id),
        failures_of(events, id) < max_failures && scripts[id].interval is Some ==> after_events(
            scripts,
            max_failures,
            events,
        ).contains_key(id),
        after_events(scripts, max_failures, events).contains_key(id) ==> {
            &&& after_events(scripts, max_failures, events)[id].failures == failures_of(events, id)
            &&& after_events(scripts, max_failures, events)[id].interval == scripts[id].interval
        },
    decreases events.len(),
{
    if events.len() > 0 {
        lemma_failure_budget(scripts, max_failures, events.drop_last(), id);
    }
}

} // verus!
