use vstd::prelude::*;
use std::sync::mpsc::Sender;
use crate::protocol::{encode, encode_spec, Command, CommandModel};

verus! {

/// `std::sync::mpsc::Sender`, the producing end of the command channel, held
/// opaque: nothing in it is read here.
#[verifier::external_type_specification]
#[verifier::external_body]
#[verifier::reject_recursive_types(T)]
pub struct ExSender<T>(Sender<T>);

/// Relies on `std::sync::mpsc::Sender::send`: it queues the packet without
/// blocking; its only failure, a receiver that is gone, is ignored, as no
/// command is acknowledged.
#[verifier::external_body]
fn post(csend: &Sender<Vec<u8>>, packet: Vec<u8>) {
    let _ = csend.send(packet);
}

/// The facade that callers use: each operation encodes one command and queues
/// it for the backend, and returns at once.
pub struct Sound {
    csend: Sender<Vec<u8>>,
    /// The packets this facade has queued, oldest first.
    sent: Ghost<Seq<Seq<u8>>>,
}

impl Sound {
    /// The packets queued through this facade so far, in the order sent.
    pub closed spec fn sent(&self) -> Seq<Seq<u8>> {
        self.sent@
    }

    pub fn new(csend: Sender<Vec<u8>>) -> (r: Sound)
        ensures
            r.sent() == Seq::<Seq<u8>>::empty(),
    {
        Sound { csend, sent: Ghost(Seq::empty()) }
    }

    fn send(&mut self, c: Command)
        ensures
            final(self).sent() == old(self).sent().push(encode_spec(c@)),
    {
        let packet = encode(&c);
        let ghost p = packet@;
        post(&self.csend, packet);
        self.sent = Ghost(self.sent@.push(p));
    }

    /// Queues the loading of a music file; 0 says it was queued.
    pub fn load(&mut self, filename: String) -> (r: i32)
        ensures
            r == 0,
            final(self).sent() == old(self).sent().push(
                encode_spec(CommandModel::LoadMusic { filename: filename@ }),
            ),
    {
        self.send(Command::LoadMusic { filename });
        0
    }

    /// Queues the playing of a loaded music file (`loops` -1: forever).
    pub fn play(&mut self, filename: String, loops: i32)
        ensures
            final(self).sent() == old(self).sent().push(
                encode_spec(CommandModel::PlayMusic { filename: filename@, loops }),
            ),
    {
        self.send(Command::PlayMusic { filename, loops });
    }

    /// Queues a halt of the current music track.
    pub fn stop(&mut self)
        ensures
            final(self).sent() == old(self).sent().push(encode_spec(CommandModel::StopMusic)),
    {
        self.send(Command::StopMusic);
    }

    /// Queues a pause of the current music track.
    pub fn pause(&mut self)
        ensures
            final(self).sent() == old(self).sent().push(encode_spec(CommandModel::PauseMusic)),
    {
        self.send(Command::PauseMusic);
    }

    /// Queues a resume of the current music track.
    pub fn resume(&mut self)
        ensures
            final(self).sent() == old(self).sent().push(encode_spec(CommandModel::ResumeMusic)),
    {
        self.send(Command::ResumeMusic);
    }

    /// Queues a rewind of the current music track.
    pub fn rewind(&mut self)
        ensures
            final(self).sent() == old(self).sent().push(encode_spec(CommandModel::RewindMusic)),
    {
        self.send(Command::RewindMusic);
    }

    /// Queues the loading of a sound file; 0 says it was queued.
    pub fn load_sound(&mut self, filename: String) -> (r: i32)
        ensures
            r == 0,
            final(self).sent() == old(self).sent().push(
                encode_spec(CommandModel::LoadSound { filename: filename@ }),
            ),
    {
        self.send(Command::LoadSound { filename });
        0
    }

    /// Queues the playing of a loaded sound file; 0 says it was queued.
    pub fn play_sound(&mut self, filename: String, loops: i32) -> (r: i32)
        ensures
            r == 0,
            final(self).sent() == old(self).sent().push(
                encode_spec(CommandModel::PlaySound { filename: filename@, loops }),
            ),
    {
        self.send(Command::PlaySound { filename, loops });
        0
    }
}

} // verus!
