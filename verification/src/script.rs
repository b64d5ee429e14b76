//! Stored scripts and the records kept of the particles they send.

use vstd::prelude::*;

verus! {

/// Nanoseconds in a second.
pub const NANOS_PER_SEC: u64 = 1_000_000_000;

/// A stored script. Instants are nanoseconds on a monotonic clock, intervals
/// are nanoseconds.
#[derive(Clone, Debug, PartialEq, Eq)]
pub struct Script {
    /// The text of the script.
    pub src: String,
    /// How many particles of this script have failed.
    pub failures: u8,
    /// The period at which the script runs; without one it runs once.
    pub interval: Option<u64>,
    /// When the script last ran, if it has.
    pub executed_at: Option<u64>,
}

/// A script as a mathematical value.
pub struct ScriptView {
    pub src: Seq<char>,
    pub failures: u8,
    pub interval: Option<u64>,
    pub executed_at: Option<u64>,
}

impl ScriptView {
    /// The instant from which the script may run again: the last run plus the
    /// interval, where there are both.
    pub open spec fn deadline(self) -> Option<int> {
        match (self.interval, self.executed_at) {
            (Some(interval), Some(executed_at)) => Some(executed_at + interval),
            _ => None,
        }
    }

    /// Whether the script runs at a tick that happens at `now`: it has no
    /// deadline yet, or its deadline is not after `now`.
    pub open spec fn is_due(self, now: u64) -> bool {
        match self.deadline() {
            Some(deadline) => deadline <= now,
            None => true,
        }
    }

    /// The script once it has run at `now`.
    pub open spec fn stamped(self, now: u64) -> ScriptView {
        ScriptView { executed_at: Some(now), ..self }
    }

    /// The script after one more failure.
    pub open spec fn failed_once(self) -> ScriptView {
        ScriptView { failures: (self.failures + 1) as u8, ..self }
    }
}

impl View for Script {
    type V = ScriptView;

    open spec fn view(&self) -> ScriptView {
        ScriptView {
            src: self.src@,
            failures: self.failures,
            interval: self.interval,
            executed_at: self.executed_at,
        }
    }
}

impl Script {
    /// A script that has not run and has not failed.
    pub fn new(src: String, interval: Option<u64>) -> (s: Script)
        ensures
            s@ == (ScriptView { src: src@, failures: 0, interval, executed_at: None }),
    {
        Script { src, interval, failures: 0, executed_at: None }
    }

    /// The instant from which the script may run again.
    pub fn deadline(&self) -> (r: Option<u128>)
        ensures
            match r {
                Some(d) => self@.deadline() == Some(d as int),
                None => self@.deadline() is None,
            },
    {
        match (self.interval, self.executed_at) {
            (Some(interval), Some(executed_at)) => Some(executed_at as u128 + interval as u128),
            _ => None,
        }
    }

    /// Whether the script runs at a tick that happens at `now`.
    pub fn is_due(&self, now: u64) -> (r: bool)
        ensures
            r == self@.is_due(now),
    {
        match self.deadline() {
            Some(deadline) => deadline <= now as u128,
            None => true,
        }
    }

    /// A copy of the script.
    pub fn duplicate(&self) -> (s: Script)
        ensures
            s@ == self@,
    {
        Script {
            src: self.src.clone(),
            failures: self.failures,
            interval: self.interval,
            executed_at: self.executed_at,
        }
    }
}

/// What is remembered of a particle that a script sent.
#[derive(Clone, Debug, PartialEq, Eq)]
pub struct SentParticle {
    /// The script that the particle came from.
    pub script_id: String,
    /// The instant at which the particle expires.
    pub deadline: u128,
}

/// A record of a sent particle as a mathematical value.
pub struct SentParticleView {
    pub script_id: Seq<char>,
    pub deadline: int,
}

impl View for SentParticle {
    type V = SentParticleView;

    open spec fn view(&self) -> SentParticleView {
        SentParticleView { script_id: self.script_id@, deadline: self.deadline as int }
    }
}

/// A unit of work for a peer to run.
#[derive(Clone, Debug, PartialEq, Eq)]
pub struct Particle {
    pub id: String,
    pub init_peer_id: String,
    /// Seconds since the Unix epoch at which the particle was made.
    pub timestamp: u64,
    /// Seconds for which the particle is valid.
    pub ttl: u32,
    pub script: String,
    pub signature: Vec<u8>,
    pub data: Vec<u8>,
}

/// A particle as a mathematical value.
pub struct ParticleView {
    pub id: Seq<char>,
    pub init_peer_id: Seq<char>,
    pub timestamp: u64,
    pub ttl: u32,
    pub script: Seq<char>,
    pub signature: Seq<u8>,
    pub data: Seq<u8>,
}

impl View for Particle {
    type V = ParticleView;

    open spec fn view(&self) -> ParticleView {
        ParticleView {
            id: self.id@,
            init_peer_id: self.init_peer_id@,
            timestamp: self.timestamp,
            ttl: self.ttl,
            script: self.script@,
            signature: self.signature@,
            data: self.data@,
        }
    }
}

/// The settings of a script storage.
#[derive(Clone, Debug, PartialEq, Eq)]
pub struct ScriptStorageConfig {
    /// The peer that the storage runs on.
    pub peer_id: String,
    /// Nanoseconds between two ticks.
    pub timer_resolution: u64,
    /// Nanoseconds for which a sent particle is valid.
    pub particle_ttl: u64,
    /// Failures after which a script is dropped.
    pub max_failures: u8,
}

/// What the owner of a script storage asks of it.
#[derive(Clone, Debug, PartialEq, Eq)]
pub enum Command {
    AddScript { uuid: String, script: String, interval: Option<u64> },
    RemoveScript { uuid: String },
}

/// Why a request did not reach the script storage or its answer did not come
/// back.
#[derive(Clone, Copy, Debug, PartialEq, Eq, Structural)]
pub enum ScriptStorageError {
    /// The request could not be sent.
    OutletError,
    /// The answer could not be received.
    InletError,
}

impl ScriptStorageError {
    /// The error in words.
    pub fn message(&self) -> (r: &'static str)
        ensures
            r@ == (match *self {
                ScriptStorageError::OutletError => "can't send message to script storage"@,
                ScriptStorageError::InletError => "can't receive response from script storage"@,
            }),
    {
        match self {
            ScriptStorageError::OutletError => "can't send message to script storage",
            ScriptStorageError::InletError => "can't receive response from script storage",
        }
    }
}

/// Whole seconds in `nanos`, cut down to their low thirty-two bits.
pub open spec fn ttl_seconds(nanos: u64) -> u32 {
    ((nanos / NANOS_PER_SEC) % 0x1_0000_0000) as u32
}

/// Whole seconds in `nanos`, cut down to their low thirty-two bits.
pub fn ttl_secs(nanos: u64) -> (r: u32)
    ensures
        r == ttl_seconds(nanos),
{
    ((nanos / NANOS_PER_SEC) % 0x1_0000_0000) as u32
}

} // verus!
