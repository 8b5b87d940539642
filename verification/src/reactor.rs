//! The decisions of the event loop: what a poll leaves to process, and where
//! an event goes by its token.
use vstd::prelude::*;

verus! {

/// The token of the channel of user requests.
pub const CHANNEL_TOKEN: usize = usize::MAX - 1;

/// The token of the bus of internal signals.
pub const BUS_TOKEN: usize = usize::MAX - 2;

/// The token of the timer.
pub const TIMER_TOKEN: usize = usize::MAX - 3;

/// Why a poll failed.
#[derive(Clone, Copy, Debug, PartialEq, Eq, Structural)]
pub enum PollFailure {
    /// A signal interrupted the wait; nothing went wrong.
    Interrupted,
    /// Any other failure.
    Failed,
}

/// How many events a poll leaves to process: what it counted, none when it
/// was interrupted, and its failure otherwise.
pub fn events_to_process(polled: Result<usize, PollFailure>) -> (r: Result<usize, PollFailure>)
    ensures
        polled matches Ok(n) ==> r == Ok::<usize, PollFailure>(n),
        polled == Err::<usize, PollFailure>(PollFailure::Interrupted) ==> r == Ok::<usize, PollFailure>(0),
        polled == Err::<usize, PollFailure>(PollFailure::Failed) ==> r == Err::<usize, PollFailure>(PollFailure::Failed),
{
    match polled {
        Ok(count) => Ok(count),
        Err(PollFailure::Interrupted) => Ok(0),
        Err(PollFailure::Failed) => Err(PollFailure::Failed),
    }
}

/// Where the events of a token go.
#[derive(Clone, Copy, Debug, PartialEq, Eq, Structural)]
pub enum Route {
    Channel,
    Bus,
    Timer,
    /// The endpoint that the token stands for.
    Endpoint(usize),
}

/// The channel, the bus and the timer have tokens of their own; any other
/// token stands for an endpoint.
pub fn route_token(token: usize) -> (r: Route)
    ensures
        token == CHANNEL_TOKEN ==> r == Route::Channel,
        token == BUS_TOKEN ==> r == Route::Bus,
        token == TIMER_TOKEN ==> r == Route::Timer,
        token != CHANNEL_TOKEN && token != BUS_TOKEN && token != TIMER_TOKEN ==> r == Route::Endpoint(token),
{
    if token == CHANNEL_TOKEN {
        Route::Channel
    } else if token == BUS_TOKEN {
        Route::Bus
    } else if token == TIMER_TOKEN {
        Route::Timer
    } else {
        Route::Endpoint(token)
    }
}

} // verus!
