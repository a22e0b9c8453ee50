//! How attempts to read, write and accept turn out.
use vstd::prelude::*;

verus! {

/// The outcome of an attempt on a socket.
pub enum Attempt<T, E> {
    Done(T),
    WouldBlock(E),
    Interrupted(E),
    Failed(E),
}

/// What follows an attempt on a socket that does not block.
pub enum Next<T, E> {
    /// It succeeded.
    Ready(T),
    /// It has to wait until the socket is ready.
    Pending,
    /// It is to be made again at once.
    Again,
    /// It failed.
    Failed(E),
}

/// What follows an attempt to read from or write to a socket that does not block.
pub fn after_attempt<T, E>(attempt: Attempt<T, E>) -> (next: Next<T, E>)
    ensures
        match attempt {
            Attempt::Done(value) => next == Next::<T, E>::Ready(value),
            Attempt::WouldBlock(_) => next is Pending,
            Attempt::Interrupted(_) => next is Again,
            Attempt::Failed(err) => next == Next::<T, E>::Failed(err),
        },
{
    match attempt {
        Attempt::Done(value) => Next::Ready(value),
        Attempt::WouldBlock(_) => Next::Pending,
        Attempt::Interrupted(_) => Next::Again,
        Attempt::Failed(err) => Next::Failed(err),
    }
}

/// What follows an attempt to accept a connection: none is waiting where it would
/// block, and every other error ends the server.
pub fn after_accept<T, E>(attempt: Attempt<T, E>) -> (next: Next<T, E>)
    ensures
        match attempt {
            Attempt::Done(value) => next == Next::<T, E>::Ready(value),
            Attempt::WouldBlock(_) => next is Pending,
            Attempt::Interrupted(err) => next == Next::<T, E>::Failed(err),
            Attempt::Failed(err) => next == Next::<T, E>::Failed(err),
        },
{
    match attempt {
        Attempt::Done(value) => Next::Ready(value),
        Attempt::WouldBlock(_) => Next::Pending,
        Attempt::Interrupted(err) => Next::Failed(err),
        Attempt::Failed(err) => Next::Failed(err),
    }
}

}
