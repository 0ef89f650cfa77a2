use vstd::prelude::*;
use crate::protocol::{
    decode, decode_spec, decoded_view, Command, CommandModel, DecodeError,
};
use crate::volume::{backend_volume, volume_spec};

verus! {

/// Playback status of the mixer's single music track.
#[derive(Copy, Clone, Debug, PartialEq, Eq, Structural)]
pub enum MusicState {
    Stopped,
    Playing,
    Paused,
}

/// Which cache an asset lives in.
#[derive(Copy, Clone, Debug, PartialEq, Eq, Structural)]
pub enum AssetKind {
    Music,
    Sound,
}

/// A call on the mixing service that the backend decided on. A `slot` names
/// the cache entry of a filename: the handle that the mixer loaded for it.
#[derive(Debug, PartialEq, Eq)]
pub enum MixerCall {
    /// Load the file into the music slot (a slot that is reused drops its old handle).
    LoadMusic { filename: String, slot: usize },
    PlayMusic { slot: usize, loops: i32 },
    HaltMusic,
    PauseMusic,
    ResumeMusic,
    RewindMusic,
    /// Load the file into the sound slot (a slot that is reused drops its old handle).
    LoadSound { filename: String, slot: usize },
    /// Play the sound on whichever output channel the mixer picks.
    PlaySound { slot: usize, loops: i32 },
    SetMusicVolume { volume: i32 },
}

/// Why a command was dropped.
#[derive(Debug, PartialEq, Eq)]
pub enum CommandError {
    /// The packet does not hold a command.
    Malformed(DecodeError),
    /// A play command names a file that was never loaded into that cache.
    AssetNotBound { kind: AssetKind, filename: String },
}

/// What handling one packet amounts to: a mixer call, or why there is none.
pub enum Effect {
    LoadMusic { filename: Seq<char>, slot: nat },
    PlayMusic { slot: nat, loops: i32 },
    HaltMusic,
    PauseMusic,
    ResumeMusic,
    RewindMusic,
    LoadSound { filename: Seq<char>, slot: nat },
    PlaySound { slot: nat, loops: i32 },
    SetMusicVolume { volume: int },
    Malformed(DecodeError),
    AssetNotBound { kind: AssetKind, filename: Seq<char> },
}

pub open spec fn outcome_view(r: Result<MixerCall, CommandError>) -> Effect {
    match r {
        Ok(MixerCall::LoadMusic { filename, slot }) => Effect::LoadMusic {
            filename: filename@,
            slot: slot as nat,
        },
        Ok(MixerCall::PlayMusic { slot, loops }) => Effect::PlayMusic { slot: slot as nat, loops },
        Ok(MixerCall::HaltMusic) => Effect::HaltMusic,
        Ok(MixerCall::PauseMusic) => Effect::PauseMusic,
        Ok(MixerCall::ResumeMusic) => Effect::ResumeMusic,
        Ok(MixerCall::RewindMusic) => Effect::RewindMusic,
        Ok(MixerCall::LoadSound { filename, slot }) => Effect::LoadSound {
            filename: filename@,
            slot: slot as nat,
        },
        Ok(MixerCall::PlaySound { slot, loops }) => Effect::PlaySound { slot: slot as nat, loops },
        Ok(MixerCall::SetMusicVolume { volume }) => Effect::SetMusicVolume { volume: volume as int },
        Err(CommandError::Malformed(e)) => Effect::Malformed(e),
        Err(CommandError::AssetNotBound { kind, filename }) => Effect::AssetNotBound {
            kind,
            filename: filename@,
        },
    }
}

/// The backend's state: the filenames of each cache, a filename's slot being
/// its position, and the status of the music track.
pub struct BackendModel {
    pub music: Seq<Seq<char>>,
    pub sounds: Seq<Seq<char>>,
    pub state: MusicState,
}

pub open spec fn distinct(names: Seq<Seq<char>>) -> bool {
    forall|i: int, j: int| 0 <= i < j < names.len() ==> names[i] != names[j]
}

pub open spec fn has_name(names: Seq<Seq<char>>, f: Seq<char>) -> bool {
    exists|i: int| 0 <= i < names.len() && names[i] == f
}

/// The slot of `f` in a cache, if it was loaded.
pub open spec fn slot_of(names: Seq<Seq<char>>, f: Seq<char>) -> Option<nat> {
    if has_name(names, f) {
        Some((choose|i: int| 0 <= i < names.len() && names[i] == f) as nat)
    } else {
        None
    }
}

/// The slot that a load of `f` fills: its own if it has one, else a new one.
pub open spec fn load_slot(names: Seq<Seq<char>>, f: Seq<char>) -> nat {
    match slot_of(names, f) {
        Some(i) => i,
        None => names.len(),
    }
}

/// The cache after a load of `f`.
pub open spec fn bind(names: Seq<Seq<char>>, f: Seq<char>) -> Seq<Seq<char>> {
    if has_name(names, f) {
        names
    } else {
        names.push(f)
    }
}

impl BackendModel {
    pub open spec fn wf(self) -> bool {
        distinct(self.music) && distinct(self.sounds)
    }

    pub open spec fn empty() -> BackendModel {
        BackendModel { music: Seq::empty(), sounds: Seq::empty(), state: MusicState::Stopped }
    }
}

/// What a command does to the backend, and the mixer call it makes.
pub open spec fn apply_spec(s: BackendModel, c: CommandModel) -> (BackendModel, Effect) {
    match c {
        CommandModel::LoadMusic { filename } => (
            BackendModel { music: bind(s.music, filename), ..s },
            Effect::LoadMusic { filename, slot: load_slot(s.music, filename) },
        ),
        CommandModel::PlayMusic { filename, loops } => match slot_of(s.music, filename) {
            Some(i) => (
                BackendModel { state: MusicState::Playing, ..s },
                Effect::PlayMusic { slot: i, loops },
            ),
            None => (s, Effect::AssetNotBound { kind: AssetKind::Music, filename }),
        },
        CommandModel::StopMusic => (
            BackendModel { state: MusicState::Stopped, ..s },
            Effect::HaltMusic,
        ),
        CommandModel::PauseMusic => (
            if s.state == MusicState::Playing {
                BackendModel { state: MusicState::Paused, ..s }
            } else {
                s
            },
            Effect::PauseMusic,
        ),
        CommandModel::ResumeMusic => (
            if s.state == MusicState::Paused {
                BackendModel { state: MusicState::Playing, ..s }
            } else {
                s
            },
            Effect::ResumeMusic,
        ),
        CommandModel::RewindMusic => (s, Effect::RewindMusic),
        CommandModel::LoadSound { filename } => (
            BackendModel { sounds: bind(s.sounds, filename), ..s },
            Effect::LoadSound { filename, slot: load_slot(s.sounds, filename) },
        ),
        CommandModel::PlaySound { filename, loops } => match slot_of(s.sounds, filename) {
            Some(i) => (s, Effect::PlaySound { slot: i, loops }),
            None => (s, Effect::AssetNotBound { kind: AssetKind::Sound, filename }),
        },
    }
}

/// Handling one packet: a malformed one changes nothing.
pub open spec fn step_spec(s: BackendModel, packet: Seq<u8>) -> (BackendModel, Effect) {
    match decode_spec(packet) {
        Err(e) => (s, Effect::Malformed(e)),
        Ok(c) => apply_spec(s, c),
    }
}

/// Handling packets one after the other, in their order.
pub open spec fn run(s: BackendModel, packets: Seq<Seq<u8>>) -> (BackendModel, Seq<Effect>)
    decreases packets.len(),
{
    if packets.len() == 0 {
        (s, Seq::empty())
    } else {
        let (s1, effects) = run(s, packets.drop_last());
        let (s2, e) = step_spec(s1, packets.last());
        (s2, effects.push(e))
    }
}

pub open spec fn names_view(v: Seq<String>) -> Seq<Seq<char>> {
    v.map_values(|s: String| s@)
}

pub open spec fn packets_view(v: Seq<Vec<u8>>) -> Seq<Seq<u8>> {
    v.map_values(|p: Vec<u8>| p@)
}

pub open spec fn outcomes_view(v: Seq<Result<MixerCall, CommandError>>) -> Seq<Effect> {
    v.map_values(|r: Result<MixerCall, CommandError>| outcome_view(r))
}

/// The audio backend: owns both asset caches and decides, command by command,
/// what the mixing service is asked to do.
pub struct SoundInternal {
    music: Vec<String>,
    sounds: Vec<String>,
    state: MusicState,
}

impl View for SoundInternal {
    type V = BackendModel;

    closed spec fn view(&self) -> BackendModel {
        BackendModel {
            music: names_view(self.music@),
            sounds: names_view(self.sounds@),
            state: self.state,
        }
    }
}

/// The slot of `f` among `names`.
fn find(names: &Vec<String>, f: &String) -> (r: Option<usize>)
    requires
        distinct(names_view(names@)),
    ensures
        match r {
            Some(i) => slot_of(names_view(names@), f@) == Some(i as nat),
            None => slot_of(names_view(names@), f@) is None,
        },
{
    let ghost nv = names_view(names@);
    let mut i: usize = 0;
    while i < names.len()
        invariant
            i <= names@.len(),
            nv == names_view(names@),
            distinct(nv),
            forall|j: int| 0 <= j < i ==> nv[j] != f@,
        decreases names@.len() - i,
    {
        if names[i] == *f {
            proof {
                assert(nv[i as int] == f@);
                assert(has_name(nv, f@));
                let k = choose|k: int| 0 <= k < nv.len() && nv[k] == f@;
                if k < i {
                    assert(nv[k] != nv[i as int]);
                } else if k > i {
                    assert(nv[i as int] != nv[k]);
                }
            }
            return Some(i);
        }
        i = i + 1;
    }
    None
}

/// Loads `f` into a cache: the slot it fills.
fn bind_name(names: &mut Vec<String>, f: &String) -> (slot: usize)
    requires
        distinct(names_view(old(names)@)),
    ensures
        distinct(names_view(final(names)@)),
        names_view(final(names)@) == bind(names_view(old(names)@), f@),
        slot as nat == load_slot(names_view(old(names)@), f@),
{
    match find(names, f) {
        Some(i) => i,
        None => {
            let ghost before = names_view(names@);
            names.push(f.clone());
            assert(names_view(names@) =~= before.push(f@));
            names.len() - 1
        },
    }
}

impl SoundInternal {
    pub closed spec fn wf(&self) -> bool {
        self@.wf()
    }

    /// A backend with empty caches and no music playing.
    pub fn new() -> (r: SoundInternal)
        ensures
            r.wf(),
            r@ == BackendModel::empty(),
    {
        let r = SoundInternal { music: Vec::new(), sounds: Vec::new(), state: MusicState::Stopped };
        assert(r@.music =~= Seq::<Seq<char>>::empty());
        assert(r@.sounds =~= Seq::<Seq<char>>::empty());
        r
    }

    /// Applies one command: updates the caches and the track status, and
    /// gives the mixer call to make, or `AssetNotBound` for a play of a
    /// filename that its cache lacks.
    pub fn apply(&mut self, c: Command) -> (r: Result<MixerCall, CommandError>)
        requires
            old(self).wf(),
        ensures
            final(self).wf(),
            (final(self)@, outcome_view(r)) == apply_spec(old(self)@, c@),
    {
        match c {
            Command::LoadMusic { filename } => {
                let slot = bind_name(&mut self.music, &filename);
                Ok(MixerCall::LoadMusic { filename, slot })
            },
            Command::PlayMusic { filename, loops } => match find(&self.music, &filename) {
                Some(slot) => {
                    self.state = MusicState::Playing;
                    Ok(MixerCall::PlayMusic { slot, loops })
                },
                None => Err(CommandError::AssetNotBound { kind: AssetKind::Music, filename }),
            },
            Command::StopMusic => {
                self.state = MusicState::Stopped;
                Ok(MixerCall::HaltMusic)
            },
            Command::PauseMusic => {
                if self.state == MusicState::Playing {
                    self.state = MusicState::Paused;
                }
                Ok(MixerCall::PauseMusic)
            },
            Command::ResumeMusic => {
                if self.state == MusicState::Paused {
                    self.state = MusicState::Playing;
                }
                Ok(MixerCall::ResumeMusic)
            },
            Command::RewindMusic => Ok(MixerCall::RewindMusic),
            Command::LoadSound { filename } => {
                let slot = bind_name(&mut self.sounds, &filename);
                Ok(MixerCall::LoadSound { filename, slot })
            },
            Command::PlaySound { filename, loops } => match find(&self.sounds, &filename) {
                Some(slot) => Ok(MixerCall::PlaySound { slot, loops }),
                None => Err(CommandError::AssetNotBound { kind: AssetKind::Sound, filename }),
            },
        }
    }

    /// Handles one packet: decodes it and applies the command; a malformed
    /// packet is reported and changes nothing.
    pub fn step(&mut self, packet: &[u8]) -> (r: Result<MixerCall, CommandError>)
        requires
            old(self).wf(),
        ensures
            final(self).wf(),
            (final(self)@, outcome_view(r)) == step_spec(old(self)@, packet@),
    {
        let d = decode(packet);
        assert(decoded_view(d) == decode_spec(packet@));
        match d {
            Err(e) => Err(CommandError::Malformed(e)),
            Ok(c) => self.apply(c),
        }
    }

    /// Drains the packets that were pending, in their order: one outcome per
    /// packet, a failed one never stopping those after it.
    pub fn update(&mut self, packets: &Vec<Vec<u8>>) -> (r: Vec<Result<MixerCall, CommandError>>)
        requires
            old(self).wf(),
        ensures
            final(self).wf(),
            (final(self)@, outcomes_view(r@)) == run(old(self)@, packets_view(packets@)),
    {
        let ghost start = self@;
        let ghost pv = packets_view(packets@);
        let mut out: Vec<Result<MixerCall, CommandError>> = Vec::new();
        let mut i: usize = 0;
        assert(pv.take(0).drop_last() =~= pv.take(0) || pv.take(0).len() == 0);
        assert(outcomes_view(out@) =~= Seq::<Effect>::empty());
        assert(pv.take(0) =~= Seq::<Seq<u8>>::empty());
        while i < packets.len()
            invariant
                i <= packets@.len(),
                pv == packets_view(packets@),
                self.wf(),
                (self@, outcomes_view(out@)) == run(start, pv.take(i as int)),
            decreases packets@.len() - i,
        {
            let ghost prev = outcomes_view(out@);
            let o = self.step(packets[i].as_slice());
            out.push(o);
            proof {
                assert(pv.take(i + 1).drop_last() =~= pv.take(i as int));
                assert(pv.take(i + 1).last() == packets[i as int]@);
                assert(outcomes_view(out@) =~= prev.push(outcome_view(o)));
            }
            i = i + 1;
        }
        assert(pv.take(i as int) =~= pv);
        out
    }

    /// The mixer call that sets the music volume from a level, clamped to the
    /// normalized range (see [`backend_volume`]).
    pub fn set_volume(&self, level: i64) -> (r: MixerCall)
        ensures
            outcome_view(Ok(r)) == (Effect::SetMusicVolume { volume: volume_spec(level as int) }),
    {
        MixerCall::SetMusicVolume { volume: backend_volume(level) }
    }
}

} // verus!
