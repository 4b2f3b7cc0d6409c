//! The channels of one worker: its own inbox and the senders into the
//! inboxes of the workers across its six faces.

use std::sync::mpsc::{Receiver, RecvError, SendError, Sender, TryRecvError};
use vstd::prelude::*;

verus! {

/// `std::sync::mpsc::Sender`: the sending end of a channel. Nothing is known
/// of what is inside.
#[verifier::external_type_specification]
#[verifier::external_body]
#[verifier::reject_recursive_types(T)]
pub struct ExSender<T>(Sender<T>);

/// `std::sync::mpsc::Receiver`: the receiving end of a channel.
#[verifier::external_type_specification]
#[verifier::external_body]
#[verifier::reject_recursive_types(T)]
pub struct ExReceiver<T>(Receiver<T>);

/// `std::sync::mpsc::SendError`: the value that could not be sent.
#[verifier::external_type_specification]
#[verifier::external_body]
#[verifier::reject_recursive_types(T)]
pub struct ExSendError<T>(SendError<T>);

/// `std::sync::mpsc::RecvError`: every sender of the channel is gone.
#[verifier::external_type_specification]
#[verifier::external_body]
pub struct ExRecvError(RecvError);

/// `std::sync::mpsc::channel`: a new channel, as its sending and its
/// receiving end.
#[verifier::external_body]
fn open_channel<T>() -> (ends: (Sender<T>, Receiver<T>)) {
    std::sync::mpsc::channel()
}

/// `Clone::clone` on a `Sender`: a duplicate of the sender. As a value the
/// duplicate is the sender it was made from: a handle on the same channel.
#[verifier::external_body]
fn clone_of<T>(sender: &Sender<T>) -> (copy: Sender<T>)
    ensures
        copy == *sender,
{
    sender.clone()
}

/// `Sender::send`: hands the value to the channel. Whether that succeeds
/// depends on whether the receiving end is still there.
#[verifier::external_body]
fn send_on<T>(sender: &Sender<T>, value: T) -> (r: Result<(), SendError<T>>) {
    sender.send(value)
}

/// `Receiver::try_recv`: the next value if one is waiting, else the reason
/// why there is none. What comes back depends on what other threads did.
#[verifier::external_body]
fn try_receive<T>(receiver: &Receiver<T>) -> (r: Result<T, NoMessage>) {
    match receiver.try_recv() {
        Ok(value) => Ok(value),
        Err(TryRecvError::Empty) => Err(NoMessage::Empty),
        Err(TryRecvError::Disconnected) => Err(NoMessage::Disconnected),
    }
}

/// The value of `std::sync::mpsc::RecvError`, which has no parts.
#[verifier::external_body]
fn disconnected() -> (e: RecvError) {
    RecvError
}

/// Why an inbox gave no message.
#[derive(Clone, Copy, Debug, PartialEq, Eq, Structural)]
pub enum NoMessage {
    /// Nothing is waiting, but a sender is still there.
    Empty,
    /// Nothing is waiting and every sender is gone.
    Disconnected,
}

/// One of the six faces of a subdomain, as a slot for a neighbour.
#[derive(Clone, Copy, Debug, PartialEq, Eq, Structural)]
pub enum NeighborDirection {
    Xlo,
    Xhi,
    Ylo,
    Yhi,
    Zlo,
    Zhi,
}

impl NeighborDirection {
    /// Slot of the face in the order `Xlo, Xhi, Ylo, Yhi, Zlo, Zhi`.
    pub open spec fn spec_index(self) -> int {
        match self {
            NeighborDirection::Xlo => 0,
            NeighborDirection::Xhi => 1,
            NeighborDirection::Ylo => 2,
            NeighborDirection::Yhi => 3,
            NeighborDirection::Zlo => 4,
            NeighborDirection::Zhi => 5,
        }
    }
}

/// The senders to the workers across the six faces; a face without a
/// neighbour has none.
#[verifier::reject_recursive_types(T)]
pub struct NeighborProcs<T> {
    xlo: Option<Sender<T>>,
    xhi: Option<Sender<T>>,
    ylo: Option<Sender<T>>,
    yhi: Option<Sender<T>>,
    zlo: Option<Sender<T>>,
    zhi: Option<Sender<T>>,
}

impl<T> NeighborProcs<T> {
    /// The sender across the face, if there is one.
    pub closed spec fn spec_slot(&self, direction: NeighborDirection) -> Option<Sender<T>> {
        match direction {
            NeighborDirection::Xlo => self.xlo,
            NeighborDirection::Xhi => self.xhi,
            NeighborDirection::Ylo => self.ylo,
            NeighborDirection::Yhi => self.yhi,
            NeighborDirection::Zlo => self.zlo,
            NeighborDirection::Zhi => self.zhi,
        }
    }

    /// The six slots in the order `Xlo, Xhi, Ylo, Yhi, Zlo, Zhi`.
    pub open spec fn spec_slots(&self) -> Seq<Option<Sender<T>>> {
        seq![
            self.spec_slot(NeighborDirection::Xlo),
            self.spec_slot(NeighborDirection::Xhi),
            self.spec_slot(NeighborDirection::Ylo),
            self.spec_slot(NeighborDirection::Yhi),
            self.spec_slot(NeighborDirection::Zlo),
            self.spec_slot(NeighborDirection::Zhi),
        ]
    }

    /// How many of the first `n` slots hold a sender.
    pub open spec fn spec_count(&self, n: int) -> int
        decreases n,
    {
        if n <= 0 {
            0
        } else {
            self.spec_count(n - 1) + if self.spec_slots()[n - 1] is Some {
                1int
            } else {
                0int
            }
        }
    }

    /// No neighbour on any face.
    pub fn new() -> (p: Self)
        ensures
            forall|d: NeighborDirection| p.spec_slot(d) is None,
    {
        NeighborProcs { xlo: None, xhi: None, ylo: None, yhi: None, zlo: None, zhi: None }
    }

    /// The six slots in the order `Xlo, Xhi, Ylo, Yhi, Zlo, Zhi`.
    pub fn as_vec(&self) -> (v: Vec<&Option<Sender<T>>>)
        ensures
            v@.len() == 6,
            forall|k: int| 0 <= k < 6 ==> *(#[trigger] v@[k]) == self.spec_slots()[k],
    {
        let mut v: Vec<&Option<Sender<T>>> = Vec::new();
        v.push(&self.xlo);
        v.push(&self.xhi);
        v.push(&self.ylo);
        v.push(&self.yhi);
        v.push(&self.zlo);
        v.push(&self.zhi);
        v
    }

    /// Puts `sender` into the slot of the face; the other slots stay.
    pub fn set(&mut self, direction: NeighborDirection, sender: Sender<T>)
        ensures
            final(self).spec_slot(direction) == Some(sender),
            forall|d: NeighborDirection|
                d != direction ==> final(self).spec_slot(d) == old(self).spec_slot(d),
    {
        match direction {
            NeighborDirection::Xlo => self.xlo = Some(sender),
            NeighborDirection::Xhi => self.xhi = Some(sender),
            NeighborDirection::Ylo => self.ylo = Some(sender),
            NeighborDirection::Yhi => self.yhi = Some(sender),
            NeighborDirection::Zlo => self.zlo = Some(sender),
            NeighborDirection::Zhi => self.zhi = Some(sender),
        };
    }

    /// The sender across the face, if there is one.
    pub fn get(&self, direction: NeighborDirection) -> (r: &Option<Sender<T>>)
        ensures
            *r == self.spec_slot(direction),
    {
        match direction {
            NeighborDirection::Xlo => &self.xlo,
            NeighborDirection::Xhi => &self.xhi,
            NeighborDirection::Ylo => &self.ylo,
            NeighborDirection::Yhi => &self.yhi,
            NeighborDirection::Zlo => &self.zlo,
            NeighborDirection::Zhi => &self.zhi,
        }
    }

    /// How many faces have a neighbour.
    pub fn count(&self) -> (n: usize)
        ensures
            n == self.spec_count(6),
    {
        let slots = self.as_vec();
        let mut n: usize = 0;
        let mut k: usize = 0;
        while k < 6
            invariant
                k <= 6,
                slots@.len() == 6,
                forall|p: int| 0 <= p < 6 ==> *(#[trigger] slots@[p]) == self.spec_slots()[p],
                n == self.spec_count(k as int),
                n <= k,
            decreases 6 - k,
        {
            if slots[k].is_some() {
                n += 1;
            }
            k += 1;
        }
        n
    }
}

/// What `Communicator::receive` makes of an attempt to take a message: a
/// message if one was waiting, nothing if the inbox was empty, an error if
/// every sender is gone.
pub fn receive_outcome<T>(attempt: Result<T, NoMessage>) -> (r: Result<Option<T>, RecvError>)
    ensures
        match attempt {
            Ok(t) => r == Ok::<Option<T>, RecvError>(Some(t)),
            Err(NoMessage::Empty) => r == Ok::<Option<T>, RecvError>(None),
            Err(NoMessage::Disconnected) => r is Err,
        },
{
    match attempt {
        Ok(t) => Ok(Some(t)),
        Err(NoMessage::Empty) => Ok(None),
        Err(NoMessage::Disconnected) => Err(disconnected()),
    }
}

/// The inbox of a worker, a sender into it to hand out, the senders to its
/// neighbours, and the ids of all workers.
#[verifier::reject_recursive_types(T)]
pub struct Communicator<T, W> {
    receiver: Receiver<T>,
    my_sender: Sender<T>,
    neighbor_procs: NeighborProcs<T>,
    thread_ids: Vec<W>,
}

impl<T, W> Communicator<T, W> {
    pub closed spec fn spec_neighbor_procs(&self) -> NeighborProcs<T> {
        self.neighbor_procs
    }

    pub closed spec fn spec_thread_ids(&self) -> Seq<W> {
        self.thread_ids@
    }

    /// The receiving end of the worker's inbox.
    pub closed spec fn spec_receiver(&self) -> Receiver<T> {
        self.receiver
    }

    /// The sender into the worker's inbox that the worker keeps for handing
    /// out duplicates.
    pub closed spec fn spec_my_sender(&self) -> Sender<T> {
        self.my_sender
    }

    /// A fresh inbox, no neighbours, no worker ids.
    pub fn new() -> (c: Self)
        ensures
            forall|d: NeighborDirection| c.spec_neighbor_procs().spec_slot(d) is None,
            c.spec_thread_ids().len() == 0,
    {
        let neighbor_procs: NeighborProcs<T> = NeighborProcs::new();
        let (my_sender, receiver) = open_channel();
        Communicator { receiver, my_sender, neighbor_procs, thread_ids: Vec::new() }
    }

    /// A sender into this worker's inbox, for a neighbour to keep: a
    /// duplicate of the sender the worker keeps.
    pub fn clone_sender(&self) -> (s: Sender<T>)
        ensures
            s == self.spec_my_sender(),
    {
        clone_of(&self.my_sender)
    }

    /// The inbox.
    pub fn receiver(&self) -> (r: &Receiver<T>)
        ensures
            *r == self.spec_receiver(),
    {
        &self.receiver
    }

    /// The senders to the neighbours.
    pub fn neighbor_procs(&self) -> (r: &NeighborProcs<T>)
        ensures
            *r == self.spec_neighbor_procs(),
    {
        &self.neighbor_procs
    }

    /// Records `sender` as the way to the neighbour across the face; the
    /// other faces stay.
    pub fn set_neighbor_proc(&mut self, direction: NeighborDirection, sender: Sender<T>)
        ensures
            final(self).spec_neighbor_procs().spec_slot(direction) == Some(sender),
            forall|d: NeighborDirection|
                d != direction ==> final(self).spec_neighbor_procs().spec_slot(d) == old(self).spec_neighbor_procs().spec_slot(d),
            final(self).spec_thread_ids() == old(self).spec_thread_ids(),
            final(self).spec_receiver() == old(self).spec_receiver(),
            final(self).spec_my_sender() == old(self).spec_my_sender(),
    {
        self.neighbor_procs.set(direction, sender);
    }

    /// Records the ids of all workers.
    pub fn set_thread_ids(&mut self, thread_ids: Vec<W>)
        ensures
            final(self).spec_thread_ids() == thread_ids@,
            final(self).spec_neighbor_procs() == old(self).spec_neighbor_procs(),
            final(self).spec_receiver() == old(self).spec_receiver(),
            final(self).spec_my_sender() == old(self).spec_my_sender(),
    {
        self.thread_ids = thread_ids;
    }

    /// The ids of all workers.
    pub fn thread_ids(&self) -> (r: &Vec<W>)
        ensures
            r@ == self.spec_thread_ids(),
    {
        &self.thread_ids
    }

    /// How many faces have a neighbour.
    pub fn num_neighbors(&self) -> (n: usize)
        ensures
            n == self.spec_neighbor_procs().spec_count(6),
    {
        self.neighbor_procs.count()
    }

    /// Takes the next message from the inbox without waiting. What comes
    /// back is `receive_outcome` of what the inbox gave.
    pub fn receive(&self) -> (r: Result<Option<T>, RecvError>) {
        receive_outcome(try_receive(&self.receiver))
    }

    /// Sends `value` to the neighbour across the face. Without a neighbour
    /// there the value is dropped and the call succeeds.
    pub fn send(&self, value: T, neighbor: NeighborDirection) -> (r: Result<(), SendError<T>>)
        ensures
            self.spec_neighbor_procs().spec_slot(neighbor) is None ==> r is Ok,
    {
        match self.neighbor_procs.get(neighbor) {
            Some(s) => send_on(s, value),
            None => Ok(()),
        }
    }
}

} // verus!
