//! The messages that workers exchange about atoms, and the checks a worker
//! makes on what it receives.

use crate::atoms::Atom;
use crate::error::Error;
use vstd::prelude::*;

verus! {

/// A message between workers. `V` is the type of a vector per atom, `S` that
/// of a number per atom.
pub enum AtomMessage<V, S> {
    Float3(Vec<V>),
    Float(Vec<S>),
    Int3(Vec<[i32; 3]>),
    Types(Vec<usize>),
    Idxs(Vec<usize>),
    Atom(Vec<Atom<V>>),
}

/// What arrives in the forward exchange: whole atoms. Any other message is
/// an error.
pub fn expect_atoms<V, S>(message: AtomMessage<V, S>) -> (r: Result<Vec<Atom<V>>, Error>)
    ensures
        match message {
            AtomMessage::Atom(atoms) => r == Ok::<Vec<Atom<V>>, Error>(atoms),
            _ => r == Err::<Vec<Atom<V>>, Error>(Error::OtherError),
        },
{
    match message {
        AtomMessage::Atom(atoms) => Ok(atoms),
        _ => Err(Error::OtherError),
    }
}

/// What arrives in the exchange of ownership: the ids of the atoms handed
/// over. Any other message is an error.
pub fn expect_idxs<V, S>(message: AtomMessage<V, S>) -> (r: Result<Vec<usize>, Error>)
    ensures
        match message {
            AtomMessage::Idxs(ids) => r == Ok::<Vec<usize>, Error>(ids),
            _ => r == Err::<Vec<usize>, Error>(Error::OtherError),
        },
{
    match message {
        AtomMessage::Idxs(ids) => Ok(ids),
        _ => Err(Error::OtherError),
    }
}

/// What arrives in the reverse exchange: first the ids, then one force for
/// each of them. Messages of another kind, in another order, or of
/// different lengths are an error.
pub fn expect_forces<V, S>(first: AtomMessage<V, S>, second: AtomMessage<V, S>) -> (r: Result<
    (Vec<usize>, Vec<V>),
    Error,
>)
    ensures
        match (first, second) {
            (AtomMessage::Idxs(ids), AtomMessage::Float3(forces)) => if ids@.len()
                == forces@.len() {
                r == Ok::<(Vec<usize>, Vec<V>), Error>((ids, forces))
            } else {
                r == Err::<(Vec<usize>, Vec<V>), Error>(Error::OtherError)
            },
            _ => r == Err::<(Vec<usize>, Vec<V>), Error>(Error::OtherError),
        },
{
    match (first, second) {
        (AtomMessage::Idxs(ids), AtomMessage::Float3(forces)) => {
            if ids.len() == forces.len() {
                Ok((ids, forces))
            } else {
                Err(Error::OtherError)
            }
        },
        _ => Err(Error::OtherError),
    }
}

} // verus!
