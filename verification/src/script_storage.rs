//! The state of a script storage and what each of its events does to it.
//!
//! The storage holds scripts by their identifiers and a record of each
//! particle that a script has sent. It is driven from outside: by commands,
//! by notices of failed particles and by the ticks of a timer.

use vstd::prelude::*;
use vstd::string::StringExecFns;
use crate::ids::{random_uuid, UUID_LEN};
use crate::script::{
    ttl_secs, ttl_seconds, Command, Particle, ParticleView, Script, ScriptStorageConfig,
    ScriptView, SentParticle, SentParticleView,
};
use crate::str_map::StrMap;
use crate::text::has_prefix;

verus! {

/// The settings of a script storage as a mathematical value.
pub struct ScriptStorageConfigView {
    pub peer_id: Seq<char>,
    pub timer_resolution: u64,
    pub particle_ttl: u64,
    pub max_failures: u8,
}

impl View for ScriptStorageConfig {
    type V = ScriptStorageConfigView;

    open spec fn view(&self) -> ScriptStorageConfigView {
        ScriptStorageConfigView {
            peer_id: self.peer_id@,
            timer_resolution: self.timer_resolution,
            particle_ttl: self.particle_ttl,
            max_failures: self.max_failures,
        }
    }
}

/// A particle that a tick has made, with the script that it came from.
#[derive(Clone, Debug, PartialEq, Eq)]
pub struct Fired {
    pub script_id: String,
    pub particle: Particle,
}

/// A fired particle as a mathematical value.
pub struct FiredView {
    pub script_id: Seq<char>,
    pub particle: ParticleView,
}

impl View for Fired {
    type V = FiredView;

    open spec fn view(&self) -> FiredView {
        FiredView { script_id: self.script_id@, particle: self.particle@ }
    }
}

/// The characters that every particle identifier of a script starts with.
pub open spec fn particle_id_prefix() -> Seq<char> {
    seq!['a', 'u', 't', 'o', '_']
}

/// Whether a script of `scripts` runs at a tick that happens at `now`.
pub open spec fn fires(scripts: Map<Seq<char>, ScriptView>, now: u64, id: Seq<char>) -> bool {
    scripts.contains_key(id) && scripts[id].is_due(now)
}

/// The scripts that are left of `scripts` without those that run only once.
pub open spec fn recurring_only(scripts: Map<Seq<char>, ScriptView>) -> Map<
    Seq<char>,
    ScriptView,
> {
    Map::new(
        |id: Seq<char>| scripts.contains_key(id) && scripts[id].interval is Some,
        |id: Seq<char>| scripts[id],
    )
}

/// The scripts of `scripts` that run only once.
pub open spec fn single_shots(scripts: Map<Seq<char>, ScriptView>) -> Map<Seq<char>, ScriptView> {
    Map::new(
        |id: Seq<char>| scripts.contains_key(id) && scripts[id].interval is None,
        |id: Seq<char>| scripts[id],
    )
}

/// The scripts of `scripts` that run at `now`, each marked as run at `now`.
pub open spec fn due_stamped(scripts: Map<Seq<char>, ScriptView>, now: u64) -> Map<
    Seq<char>,
    ScriptView,
> {
    Map::new(
        |id: Seq<char>| fires(scripts, now, id),
        |id: Seq<char>| scripts[id].stamped(now),
    )
}

/// `scripts` with every script that runs at `now` marked as run at `now`.
pub open spec fn stamp_due(scripts: Map<Seq<char>, ScriptView>, now: u64) -> Map<
    Seq<char>,
    ScriptView,
> {
    Map::new(
        |id: Seq<char>| scripts.contains_key(id),
        |id: Seq<char>|
            if scripts[id].is_due(now) {
                scripts[id].stamped(now)
            } else {
                scripts[id]
            },
    )
}

/// The scripts that a tick at `now` leaves of `scripts`: those that run only
/// once are gone, and each of the others that ran is marked as run at `now`.
pub open spec fn scripts_after_tick(scripts: Map<Seq<char>, ScriptView>, now: u64) -> Map<
    Seq<char>,
    ScriptView,
> {
    stamp_due(recurring_only(scripts), now)
}

/// The scripts after a particle of script `id` has failed: the script has one
/// more failure, or is gone where that failure reaches `max_failures`.
pub open spec fn after_failure(
    scripts: Map<Seq<char>, ScriptView>,
    id: Seq<char>,
    max_failures: u8,
) -> Map<Seq<char>, ScriptView> {
    if !scripts.contains_key(id) {
        scripts
    } else if scripts[id].failures + 1 < max_failures {
        scripts.insert(id, scripts[id].failed_once())
    } else {
        scripts.remove(id)
    }
}

/// The records that a cleanup at `now` keeps: those whose deadline is before
/// `now`.
pub open spec fn after_cleanup(sent: Map<Seq<char>, SentParticleView>, now: u64) -> Map<
    Seq<char>,
    SentParticleView,
> {
    Map::new(
        |id: Seq<char>| sent.contains_key(id) && sent[id].deadline < now,
        |id: Seq<char>| sent[id],
    )
}

/// The records after each particle of `fired` has been recorded, in order,
/// with the deadline `deadline`.
pub open spec fn record_sent(
    sent: Map<Seq<char>, SentParticleView>,
    fired: Seq<FiredView>,
    deadline: int,
) -> Map<Seq<char>, SentParticleView>
    decreases fired.len(),
{
    if fired.len() == 0 {
        sent
    } else {
        record_sent(sent, fired.drop_last(), deadline).insert(
            fired.last().particle.id,
            SentParticleView { script_id: fired.last().script_id, deadline },
        )
    }
}

/// The particle that carries the script text `src` under the identifier `id`.
pub open spec fn particle_of(
    config: ScriptStorageConfigView,
    id: Seq<char>,
    src: Seq<char>,
    now_epoch: u64,
) -> ParticleView {
    ParticleView {
        id,
        init_peer_id: config.peer_id,
        timestamp: now_epoch,
        ttl: ttl_seconds(config.particle_ttl),
        script: src,
        signature: Seq::empty(),
        data: Seq::empty(),
    }
}

/// The entries of a list of scripts as mathematical values.
pub open spec fn entries_view(list: Seq<(String, Script)>) -> Seq<(Seq<char>, ScriptView)> {
    list.map_values(|e: (String, Script)| (e.0@, e.1@))
}

/// Whether `list` holds each entry of `scripts` exactly once and nothing else.
pub open spec fn enumerates(
    list: Seq<(Seq<char>, ScriptView)>,
    scripts: Map<Seq<char>, ScriptView>,
) -> bool {
    &&& forall|a: int, b: int| 0 <= a < b < list.len() ==> list[a].0 != list[b].0
    &&& forall|a: int|
        0 <= a < list.len() ==> scripts.contains_key(#[trigger] list[a].0) && scripts[list[a].0]
            == list[a].1
    &&& forall|id: Seq<char>|
        scripts.contains_key(id) ==> exists|a: int| 0 <= a < list.len() && #[trigger] list[a].0 == id
}


/// The fired particles as mathematical values.
pub open spec fn fired_view(fired: Seq<Fired>) -> Seq<FiredView> {
    fired.map_values(|f: Fired| f@)
}

/// Whether `particle` is one that a tick makes for a script with the text
/// `src`: it carries the text and the settings, and its identifier is the
/// prefix followed by the thirty-six characters of a fresh identifier.
pub open spec fn is_script_particle(
    particle: ParticleView,
    config: ScriptStorageConfigView,
    src: Seq<char>,
    now_epoch: u64,
) -> bool {
    &&& particle == particle_of(config, particle.id, src, now_epoch)
    &&& particle.id.len() == particle_id_prefix().len() + UUID_LEN
    &&& has_prefix(particle.id, particle_id_prefix())
}

/// What a tick at `now` fires, given the scripts before it: one particle for
/// each script that runs, those that run only once first.
pub open spec fn fired_by_tick(
    fired: Seq<FiredView>,
    scripts: Map<Seq<char>, ScriptView>,
    config: ScriptStorageConfigView,
    now: u64,
    now_epoch: u64,
) -> bool {
    &&& forall|a: int, b: int|
        0 <= a < b < fired.len() ==> (#[trigger] fired[a]).script_id != (
        #[trigger] fired[b]).script_id
    &&& forall|a: int|
        0 <= a < fired.len() ==> fires(scripts, now, (#[trigger] fired[a]).script_id)
            && is_script_particle(
            fired[a].particle,
            config,
            scripts[fired[a].script_id].src,
            now_epoch,
        )
    &&& forall|id: Seq<char>|
        fires(scripts, now, id) ==> exists|a: int|
            0 <= a < fired.len() && (#[trigger] fired[a]).script_id == id
    &&& forall|a: int, b: int|
        0 <= a < b < fired.len() && scripts[(#[trigger] fired[b]).script_id].interval is None
            ==> scripts[(#[trigger] fired[a]).script_id].interval is None
}

/// The list of the scripts that run only once, followed by the list of the
/// others that are due, holds each script that runs at the tick exactly once.
pub proof fn lemma_queue_enumerates(
    shots: Seq<(Seq<char>, ScriptView)>,
    due: Seq<(Seq<char>, ScriptView)>,
    scripts: Map<Seq<char>, ScriptView>,
    now: u64,
)
    requires
        enumerates(shots, single_shots(scripts)),
        enumerates(due, due_stamped(recurring_only(scripts), now)),
    ensures
        forall|a: int, b: int| 0 <= a < b < (shots + due).len() ==> (shots + due)[a].0 != (shots + due)[b].0,
        forall|a: int|
            0 <= a < (shots + due).len() ==> {
                &&& fires(scripts, now, #[trigger] (shots + due)[a].0)
                &&& scripts[(shots + due)[a].0].src == (shots + due)[a].1.src
                &&& (scripts[(shots + due)[a].0].interval is None <==> a < shots.len())
            },
        forall|id: Seq<char>|
            fires(scripts, now, id) ==> exists|a: int|
                0 <= a < (shots + due).len() && #[trigger] (shots + due)[a].0 == id,
{
    let all = shots + due;
    let n = shots.len() as int;
    assert forall|a: int| 0 <= a < all.len() implies {
        &&& fires(scripts, now, #[trigger] all[a].0)
        &&& scripts[all[a].0].src == all[a].1.src
        &&& (scripts[all[a].0].interval is None <==> a < shots.len())
    } by {
        if a < n {
            assert(all[a] == shots[a]);
            assert(single_shots(scripts).contains_key(shots[a].0));
        } else {
            assert(all[a] == due[a - n]);
            assert(due_stamped(recurring_only(scripts), now).contains_key(due[a - n].0));
        }
    }
    assert forall|a: int, b: int| 0 <= a < b < all.len() implies all[a].0 != all[b].0 by {
        if b < n {
            assert(all[a] == shots[a] && all[b] == shots[b]);
        } else if a < n {
            assert(all[a] == shots[a] && all[b] == due[b - n]);
            assert(single_shots(scripts).contains_key(shots[a].0));
            assert(due_stamped(recurring_only(scripts), now).contains_key(due[b - n].0));
        } else {
            assert(all[a] == due[a - n] && all[b] == due[b - n]);
        }
    }
    assert forall|id: Seq<char>| fires(scripts, now, id) implies exists|a: int|
        0 <= a < all.len() && #[trigger] all[a].0 == id by {
        if scripts[id].interval is None {
            assert(single_shots(scripts).contains_key(id));
            let a = choose|a: int| 0 <= a < shots.len() && #[trigger] shots[a].0 == id;
            assert(all[a].0 == id);
        } else {
            assert(due_stamped(recurring_only(scripts), now).contains_key(id));
            let a = choose|a: int| 0 <= a < due.len() && #[trigger] due[a].0 == id;
            assert(all[a + n] == due[a]);
            assert(all[a + n].0 == id);
        }
    }
}

/// The scripts of a storage, the records of the particles they have sent, and
/// the storage's settings.
pub struct ScriptStorageBackend {
    scripts: StrMap<Script>,
    sent_particles: StrMap<SentParticle>,
    config: ScriptStorageConfig,
}

impl ScriptStorageBackend {
    /// The maps of the storage are well formed.
    pub closed spec fn wf(&self) -> bool {
        self.scripts.wf() && self.sent_particles.wf()
    }

    /// The stored scripts, by their identifiers.
    pub closed spec fn scripts(&self) -> Map<Seq<char>, ScriptView> {
        self.scripts@.map_values(|s: Script| s@)
    }

    /// The records of sent particles, by the particles' identifiers.
    pub closed spec fn sent_particles(&self) -> Map<Seq<char>, SentParticleView> {
        self.sent_particles@.map_values(|s: SentParticle| s@)
    }

    /// The settings.
    pub closed spec fn config(&self) -> ScriptStorageConfigView {
        self.config@
    }

    /// A storage without scripts and without records.
    pub fn new(config: ScriptStorageConfig) -> (s: Self)
        ensures
            s.wf(),
            s.scripts() == Map::<Seq<char>, ScriptView>::empty(),
            s.sent_particles() == Map::<Seq<char>, SentParticleView>::empty(),
            s.config() == config@,
    {
        let s = ScriptStorageBackend {
            scripts: StrMap::new(),
            sent_particles: StrMap::new(),
            config,
        };
        assert(s.scripts() =~= Map::<Seq<char>, ScriptView>::empty());
        assert(s.sent_particles() =~= Map::<Seq<char>, SentParticleView>::empty());
        s
    }

    /// The number of stored scripts.
    pub fn script_count(&self) -> (n: usize)
        requires
            self.wf(),
        ensures
            n == self.scripts().dom().len(),
    {
        proof {
            self.scripts.lemma_len();
            assert(self.scripts().dom() =~= self.scripts@.dom());
        }
        self.scripts.len()
    }

    /// The script stored under `id`, if there is one.
    pub fn script(&self, id: &str) -> (r: Option<&Script>)
        requires
            self.wf(),
        ensures
            match r {
                Some(s) => self.scripts().contains_key(id@) && self.scripts()[id@] == s@,
                None => !self.scripts().contains_key(id@),
            },
    {
        self.scripts.get(id)
    }

    /// The record kept of the particle `id`, if there is one.
    pub fn sent_particle(&self, id: &str) -> (r: Option<&SentParticle>)
        requires
            self.wf(),
        ensures
            match r {
                Some(s) => self.sent_particles().contains_key(id@) && self.sent_particles()[id@]
                    == s@,
                None => !self.sent_particles().contains_key(id@),
            },
    {
        self.sent_particles.get(id)
    }

    /// Carries out a command. Adding a script stores it as one that has not
    /// run, in place of any script with the same identifier, and answers
    /// nothing; removing a script answers whether it was there.
    pub fn execute_command(&mut self, command: Command) -> (r: Option<bool>)
        requires
            old(self).wf(),
        ensures
            final(self).wf(),
            final(self).config() == old(self).config(),
            final(self).sent_particles() == old(self).sent_particles(),
            match command {
                Command::AddScript { uuid, script, interval } => {
                    &&& r is None
                    &&& final(self).scripts() == old(self).scripts().insert(
                        uuid@,
                        ScriptView { src: script@, failures: 0, interval, executed_at: None },
                    )
                },
                Command::RemoveScript { uuid } => {
                    &&& r == Some(old(self).scripts().contains_key(uuid@))
                    &&& final(self).scripts() == old(self).scripts().remove(uuid@)
                },
            },
    {
        match command {
            Command::AddScript { uuid, script, interval } => {
                let ghost id = uuid@;
                let script = Script::new(script, interval);
                let ghost view = script@;
                let _ = self.scripts.insert(uuid, script);
                assert(self.scripts() =~= old(self).scripts().insert(id, view));
                None
            },
            Command::RemoveScript { uuid } => {
                let removed = self.scripts.remove(uuid.as_str());
                assert(self.scripts() =~= old(self).scripts().remove(uuid@));
                Some(removed.is_some())
            },
        }
    }

    /// Takes note that the particle `particle_id` has failed. Its record is
    /// used up; where there was one, the script it names has one more
    /// failure or is dropped.
    pub fn remove_failed_scripts(&mut self, particle_id: &str)
        requires
            old(self).wf(),
        ensures
            final(self).wf(),
            final(self).config() == old(self).config(),
            final(self).sent_particles() == old(self).sent_particles().remove(particle_id@),
            final(self).scripts() == (if old(self).sent_particles().contains_key(particle_id@) {
                after_failure(
                    old(self).scripts(),
                    old(self).sent_particles()[particle_id@].script_id,
                    old(self).config().max_failures,
                )
            } else {
                old(self).scripts()
            }),
    {
        let sent = self.sent_particles.remove(particle_id);
        assert(self.sent_particles() =~= old(self).sent_particles().remove(particle_id@));
        if let Some(sent) = sent {
            let max_failures: u8 = self.config.max_failures;
            match self.scripts.position(sent.script_id.as_str()) {
                Some(i) => {
                    proof {
                        self.scripts.lemma_entry(i as int);
                    }
                    let failures: u8 = self.scripts.value_at(i).failures;
                    if max_failures > 0 && failures < max_failures - 1 {
                        let blank = Script::new(String::new(), None);
                        let mut script = self.scripts.replace_value_at(i, blank);
                        script.failures = failures + 1;
                        let ghost view = script@;
                        self.scripts.set_value_at(i, script);
                        assert(self.scripts() =~= old(self).scripts().insert(
                            sent.script_id@,
                            view,
                        ));
                    } else {
                        let _ = self.scripts.remove_at(i);
                        assert(self.scripts() =~= old(self).scripts().remove(sent.script_id@));
                    }
                },
                None => {},
            }
        }
    }

    /// Drops the records of sent particles whose deadline is not before
    /// `now`.
    pub fn cleanup(&mut self, now: u64)
        requires
            old(self).wf(),
        ensures
            final(self).wf(),
            final(self).config() == old(self).config(),
            final(self).scripts() == old(self).scripts(),
            final(self).sent_particles() == after_cleanup(old(self).sent_particles(), now),
    {
        let mut i: usize = 0;
        while i < self.sent_particles.len()
            invariant
                self.sent_particles.wf(),
                self.scripts == old(self).scripts,
                self.config == old(self).config,
                i <= self.sent_particles.keys().len(),
                forall|j: int| 0 <= j < i ==> self.sent_particles.values()[j].deadline < now,
                forall|k: Seq<char>| #[trigger]
                    self.sent_particles@.contains_key(k) ==> old(self).sent_particles@.contains_key(
                        k,
                    ) && self.sent_particles@[k] == old(self).sent_particles@[k],
                forall|k: Seq<char>| #[trigger]
                    old(self).sent_particles@.contains_key(k) && old(
                        self,
                    ).sent_particles@[k].deadline < now ==> self.sent_particles@.contains_key(k),
            decreases self.sent_particles.keys().len() - i,
        {
            if self.sent_particles.value_at(i).deadline < now as u128 {
                i += 1;
            } else {
                proof {
                    self.sent_particles.lemma_entry(i as int);
                }
                let _ = self.sent_particles.remove_at(i);
            }
        }
        proof {
            assert forall|k: Seq<char>| #[trigger]
                self.sent_particles@.contains_key(k) implies self.sent_particles@[k].deadline
                < now by {
                self.sent_particles.lemma_slot(k);
            }
            assert(self.sent_particles() =~= after_cleanup(old(self).sent_particles(), now));
        }
    }
}

impl ScriptStorageBackend {
    /// Takes every script that runs only once out of the storage.
    pub fn drain_single_shots(&mut self) -> (shots: Vec<(String, Script)>)
        requires
            old(self).wf(),
        ensures
            final(self).wf(),
            final(self).config() == old(self).config(),
            final(self).sent_particles() == old(self).sent_particles(),
            final(self).scripts() == recurring_only(old(self).scripts()),
            enumerates(entries_view(shots@), single_shots(old(self).scripts())),
    {
        let mut shots: Vec<(String, Script)> = Vec::new();
        let mut i: usize = 0;
        while i < self.scripts.len()
            invariant
                self.scripts.wf(),
                self.sent_particles == old(self).sent_particles,
                self.config == old(self).config,
                i <= self.scripts.keys().len(),
                forall|j: int| 0 <= j < i ==> self.scripts.values()[j].interval is Some,
                forall|k: Seq<char>| #[trigger]
                    self.scripts@.contains_key(k) ==> old(self).scripts@.contains_key(k)
                        && self.scripts@[k] == old(self).scripts@[k],
                forall|a: int|
                    0 <= a < shots@.len() ==> {
                        &&& old(self).scripts@.contains_key(#[trigger] shots@[a].0@)
                        &&& old(self).scripts@[shots@[a].0@] == shots@[a].1
                        &&& shots@[a].1.interval is None
                        &&& !self.scripts@.contains_key(shots@[a].0@)
                    },
                forall|a: int, b: int|
                    0 <= a < b < shots@.len() ==> (#[trigger] shots@[a]).0@ != (
                    #[trigger] shots@[b]).0@,
                forall|k: Seq<char>| #[trigger]
                    old(self).scripts@.contains_key(k) ==> self.scripts@.contains_key(k) || exists|
                        a: int,
                    |
                        0 <= a < shots@.len() && (#[trigger] shots@[a]).0@ == k,
            decreases self.scripts.keys().len() - i,
        {
            if self.scripts.value_at(i).interval.is_none() {
                proof {
                    self.scripts.lemma_entry(i as int);
                }
                let ghost before = self.scripts@;
                let ghost earlier = shots@;
                let entry = self.scripts.remove_at(i);
                shots.push(entry);
                proof {
                    let last = earlier.len() as int;
                    assert(shots@[last] == entry);
                    assert forall|k: Seq<char>| #[trigger]
                        old(self).scripts@.contains_key(k) implies self.scripts@.contains_key(k)
                        || exists|a: int| 0 <= a < shots@.len() && (#[trigger] shots@[a]).0@ == k by {
                        if before.contains_key(k) {
                            if k == entry.0@ {
                                assert(shots@[last].0@ == k);
                            }
                        } else {
                            let a = choose|a: int|
                                0 <= a < earlier.len() && (#[trigger] earlier[a]).0@ == k;
                            assert(shots@[a] == earlier[a]);
                        }
                    }
                    assert forall|a: int| 0 <= a < shots@.len() implies {
                        &&& old(self).scripts@.contains_key(#[trigger] shots@[a].0@)
                        &&& old(self).scripts@[shots@[a].0@] == shots@[a].1
                        &&& shots@[a].1.interval is None
                        &&& !self.scripts@.contains_key(shots@[a].0@)
                    } by {
                        if a < last {
                            assert(shots@[a] == earlier[a]);
                        }
                    }
                    assert forall|a: int, b: int| 0 <= a < b < shots@.len() implies (
                    #[trigger] shots@[a]).0@ != (#[trigger] shots@[b]).0@ by {
                        assert(shots@[a] == earlier[a]);
                        if b < last {
                            assert(shots@[b] == earlier[b]);
                        }
                    }
                }
            } else {
                i += 1;
            }
        }
        proof {
            let list = entries_view(shots@);
            let before = old(self).scripts();
            assert forall|k: Seq<char>| #[trigger]
                self.scripts@.contains_key(k) implies self.scripts@[k].interval is Some by {
                self.scripts.lemma_slot(k);
            }
            assert forall|k: Seq<char>| #[trigger]
                recurring_only(before).contains_key(k) implies self.scripts().contains_key(k) by {
                if !self.scripts@.contains_key(k) {
                    let a = choose|a: int| 0 <= a < shots@.len() && (#[trigger] shots@[a]).0@ == k;
                    assert(shots@[a].1.interval is None);
                }
            }
            assert(self.scripts() =~= recurring_only(before));
            assert forall|a: int, b: int| 0 <= a < b < list.len() implies list[a].0 != list[b].0 by {
                assert(shots@[a].0@ != shots@[b].0@);
            }
            assert forall|a: int| 0 <= a < list.len() implies single_shots(before).contains_key(
                #[trigger] list[a].0,
            ) && single_shots(before)[list[a].0] == list[a].1 by {
                assert(old(self).scripts@.contains_key(shots@[a].0@));
            }
            assert forall|id: Seq<char>| single_shots(before).contains_key(id) implies exists|
                a: int,
            |
                0 <= a < list.len() && #[trigger] list[a].0 == id by {
                assert(old(self).scripts@.contains_key(id));
                assert(!self.scripts@.contains_key(id));
                let a = choose|a: int| 0 <= a < shots@.len() && (#[trigger] shots@[a]).0@ == id;
                assert(list[a].0 == id);
            }
        }
        shots
    }

    /// Marks every script that runs at `now` as run at `now` and returns a
    /// copy of each of them.
    pub fn select_due(&mut self, now: u64) -> (due: Vec<(String, Script)>)
        requires
            old(self).wf(),
        ensures
            final(self).wf(),
            final(self).config() == old(self).config(),
            final(self).sent_particles() == old(self).sent_particles(),
            final(self).scripts() == stamp_due(old(self).scripts(), now),
            enumerates(entries_view(due@), due_stamped(old(self).scripts(), now)),
    {
        let n: usize = self.scripts.len();
        let mut due: Vec<(String, Script)> = Vec::new();
        let ghost mut picked: Seq<int> = Seq::empty();
        let mut i: usize = 0;
        while i < n
            invariant
                self.scripts.wf(),
                old(self).scripts.wf(),
                self.sent_particles == old(self).sent_particles,
                self.config == old(self).config,
                i <= n,
                n == self.scripts.keys().len(),
                self.scripts.keys() == old(self).scripts.keys(),
                forall|j: int|
                    0 <= j < i ==> (#[trigger] self.scripts.values()[j])@ == (if old(
                        self,
                    ).scripts.values()[j]@.is_due(now) {
                        old(self).scripts.values()[j]@.stamped(now)
                    } else {
                        old(self).scripts.values()[j]@
                    }),
                forall|j: int|
                    i <= j < n ==> #[trigger] self.scripts.values()[j] == old(
                        self,
                    ).scripts.values()[j],
                picked.len() == due@.len(),
                forall|a: int|
                    0 <= a < picked.len() ==> {
                        &&& 0 <= #[trigger] picked[a] < i
                        &&& old(self).scripts.values()[picked[a]]@.is_due(now)
                        &&& due@[a].0@ == old(self).scripts.keys()[picked[a]]
                        &&& due@[a].1@ == old(self).scripts.values()[picked[a]]@.stamped(now)
                    },
                forall|a: int, b: int|
                    0 <= a < b < picked.len() ==> #[trigger] picked[a] < #[trigger] picked[b],
                forall|j: int|
                    0 <= j < i && (#[trigger] old(self).scripts.values()[j])@.is_due(now)
                        ==> picked.contains(j),
            decreases n - i,
        {
            if self.scripts.value_at(i).is_due(now) {
                let blank = Script::new(String::new(), None);
                let mut script = self.scripts.replace_value_at(i, blank);
                script.executed_at = Some(now);
                let copy = script.duplicate();
                let id = self.scripts.key_at(i).clone();
                self.scripts.set_value_at(i, script);
                due.push((id, copy));
                proof {
                    let earlier = picked;
                    picked = picked.push(i as int);
                    assert forall|j: int|
                        0 <= j < i + 1 && (#[trigger] old(self).scripts.values()[j])@.is_due(
                            now,
                        ) implies picked.contains(j) by {
                        if j < i {
                            let a = earlier.index_of(j);
                            assert(earlier.contains(j));
                            assert(picked[a] == j);
                        } else {
                            assert(picked[earlier.len() as int] == j);
                        }
                    }
                }
            }
            i += 1;
        }
        proof {
            let before = old(self).scripts();
            let list = entries_view(due@);
            assert forall|k: Seq<char>| #[trigger] self.scripts().contains_key(k) implies before.contains_key(
                k,
            ) && self.scripts()[k] == stamp_due(before, now)[k] by {
                self.scripts.lemma_slot(k);
                let j = self.scripts.slot(k);
                old(self).scripts.lemma_entry(j);
                assert(self.scripts.values()[j]@ == self.scripts()[k]);
            }
            assert forall|k: Seq<char>| #[trigger] before.contains_key(k) implies self.scripts().contains_key(
                k,
            ) by {
                old(self).scripts.lemma_slot(k);
                self.scripts.lemma_entry(old(self).scripts.slot(k));
            }
            assert(self.scripts() =~= stamp_due(before, now));
            assert forall|a: int, b: int| 0 <= a < b < list.len() implies list[a].0 != list[b].0 by {
                assert(picked[a] < picked[b]);
            }
            assert forall|a: int| 0 <= a < list.len() implies due_stamped(before, now).contains_key(
                #[trigger] list[a].0,
            ) && due_stamped(before, now)[list[a].0] == list[a].1 by {
                old(self).scripts.lemma_entry(picked[a]);
            }
            assert forall|id: Seq<char>| due_stamped(before, now).contains_key(id) implies exists|
                a: int,
            |
                0 <= a < list.len() && #[trigger] list[a].0 == id by {
                old(self).scripts.lemma_slot(id);
                let j = old(self).scripts.slot(id);
                assert(old(self).scripts.values()[j]@.is_due(now));
                assert(picked.contains(j));
                let a = picked.index_of(j);
                assert(list[a].0 == id);
            }
        }
        due
    }
}

/// The identifier of a particle that a script sends: the prefix, then `uuid`.
pub fn particle_id(uuid: &str) -> (id: String)
    ensures
        id@ == particle_id_prefix() + uuid@,
{
    proof {
        reveal_strlit("auto_");
    }
    assert("auto_"@ =~= particle_id_prefix());
    String::from_str("auto_").concat(uuid)
}

impl ScriptStorageBackend {
    /// Makes the particle that runs `script` under the identifier made from
    /// `uuid`, and records it as sent by the script `script_id` at `now`.
    pub fn fire(
        &mut self,
        script_id: String,
        script: Script,
        uuid: &str,
        now: u64,
        now_epoch: u64,
    ) -> (fired: Fired)
        requires
            old(self).wf(),
        ensures
            final(self).wf(),
            final(self).config() == old(self).config(),
            final(self).scripts() == old(self).scripts(),
            fired@ == (FiredView {
                script_id: script_id@,
                particle: particle_of(
                    old(self).config(),
                    particle_id_prefix() + uuid@,
                    script@.src,
                    now_epoch,
                ),
            }),
            final(self).sent_particles() == old(self).sent_particles().insert(
                particle_id_prefix() + uuid@,
                SentParticleView {
                    script_id: script_id@,
                    deadline: now + old(self).config().particle_ttl,
                },
            ),
    {
        let id = particle_id(uuid);
        let record = SentParticle {
            script_id: script_id.clone(),
            deadline: now as u128 + self.config.particle_ttl as u128,
        };
        let ghost record_view = record@;
        let _ = self.sent_particles.insert(id.clone(), record);
        assert(self.sent_particles() =~= old(self).sent_particles().insert(id@, record_view));
        let particle = Particle {
            id,
            init_peer_id: self.config.peer_id.clone(),
            timestamp: now_epoch,
            ttl: ttl_secs(self.config.particle_ttl),
            script: script.src,
            signature: Vec::new(),
            data: Vec::new(),
        };
        Fired { script_id, particle }
    }

    /// The firing half of a tick at the instant `now`, which is `now_epoch`
    /// seconds after the Unix epoch. Every script that runs only once leaves
    /// the storage; every other script that is due is marked as run at `now`.
    /// For each of them a particle with a fresh identifier is made and
    /// recorded as sent.
    pub fn execute_scripts(&mut self, now: u64, now_epoch: u64) -> (fired: Vec<Fired>)
        requires
            old(self).wf(),
        ensures
            final(self).wf(),
            final(self).config() == old(self).config(),
            final(self).scripts() == scripts_after_tick(old(self).scripts(), now),
            fired_by_tick(
                fired_view(fired@),
                old(self).scripts(),
                old(self).config(),
                now,
                now_epoch,
            ),
            final(self).sent_particles() == record_sent(
                old(self).sent_particles(),
                fired_view(fired@),
                now + old(self).config().particle_ttl,
            ),
    {
        let mut queue = self.drain_single_shots();
        let ghost shots = entries_view(queue@);
        let mut due = self.select_due(now);
        let ghost later = entries_view(due@);
        queue.append(&mut due);
        proof {
            assert(entries_view(queue@) =~= shots + later);
            lemma_queue_enumerates(shots, later, old(self).scripts(), now);
        }
        let ghost list = entries_view(queue@);
        let ghost deadline = now + old(self).config().particle_ttl;
        let mut fired: Vec<Fired> = Vec::new();
        for entry in it: queue
            invariant
                it.seq() == queue@,
                list == entries_view(queue@),
                self.wf(),
                self.config() == old(self).config(),
                self.scripts() == scripts_after_tick(old(self).scripts(), now),
                deadline == now + old(self).config().particle_ttl,
                fired@.len() == it.index(),
                forall|a: int|
                    0 <= a < fired@.len() ==> (#[trigger] fired@[a])@.script_id == list[a].0
                        && is_script_particle(
                        fired@[a]@.particle,
                        old(self).config(),
                        list[a].1.src,
                        now_epoch,
                    ),
                self.sent_particles() == record_sent(
                    old(self).sent_particles(),
                    fired_view(fired@),
                    deadline,
                ),
        {
            let uuid = random_uuid();
            let ghost earlier = fired@;
            let ghost a = it.index();
            assert(list[a] == (entry.0@, entry.1@));
            let next = self.fire(entry.0, entry.1, uuid.as_str(), now, now_epoch);
            proof {
                let id = particle_id_prefix() + uuid@;
                assert(id.take(particle_id_prefix().len() as int) =~= particle_id_prefix());
                assert(fired_view(earlier.push(next)).drop_last() =~= fired_view(earlier));
            }
            fired.push(next);
        }
        proof {
            let views = fired_view(fired@);
            let before = old(self).scripts();
            assert(views.len() == list.len());
            assert forall|a: int| 0 <= a < views.len() implies (#[trigger] views[a]).script_id
                == list[a].0 by {
                assert(fired@[a]@.script_id == list[a].0);
            }
            assert forall|id: Seq<char>| fires(before, now, id) implies exists|a: int|
                0 <= a < views.len() && (#[trigger] views[a]).script_id == id by {
                let a = choose|a: int| 0 <= a < list.len() && #[trigger] list[a].0 == id;
                assert(views[a].script_id == id);
            }
            assert forall|a: int| 0 <= a < views.len() implies fires(
                before,
                now,
                (#[trigger] views[a]).script_id,
            ) && is_script_particle(
                views[a].particle,
                old(self).config(),
                before[views[a].script_id].src,
                now_epoch,
            ) by {
                assert(fired@[a]@.script_id == list[a].0);
                assert(fires(before, now, list[a].0));
            }
            assert forall|a: int, b: int|
                0 <= a < b < views.len() && before[(#[trigger] views[b]).script_id].interval is None implies before[(
            #[trigger] views[a]).script_id].interval is None by {
                assert(fires(before, now, list[a].0));
                assert(fires(before, now, list[b].0));
            }
        }
        fired
    }
}

/// The command that adds `script` under a fresh identifier.
pub fn new_script(script: String, interval: Option<u64>) -> (command: Command)
    ensures
        command matches Command::AddScript { uuid, script: text, interval: period } && uuid@.len()
            == UUID_LEN && text@ == script@ && period == interval,
{
    Command::AddScript { uuid: random_uuid(), script, interval }
}

} // verus!
