//! The pause between attempts to reconnect to Gotify's message stream.
use vstd::prelude::*;

verus! {

/// The shortest pause, in seconds, and the pause after a connection succeeds.
pub open spec fn initial_delay() -> nat {
    2
}

/// The longest pause, in seconds.
pub open spec fn max_delay() -> nat {
    60
}

/// The pause after one that lasted `d` seconds: twice as long, at most a minute.
pub open spec fn grown(d: nat) -> nat {
    if 2 * d < max_delay() {
        2 * d
    } else {
        max_delay()
    }
}

/// The pause after `k` failed attempts in a row.
pub open spec fn delay_after(k: nat) -> nat
    decreases k,
{
    if k == 0 {
        initial_delay()
    } else {
        grown(delay_after((k - 1) as nat))
    }
}

/// `2` to the power `n`.
pub open spec fn two_pow(n: nat) -> nat
    decreases n,
{
    if n == 0 {
        1
    } else {
        2 * two_pow((n - 1) as nat)
    }
}

/// The pause before the next attempt to reconnect.
#[derive(Debug)]
pub struct ReconnectBackoff {
    delay_secs: u64,
}

impl View for ReconnectBackoff {
    type V = nat;

    /// The pause, in seconds, that the next failure waits.
    closed spec fn view(&self) -> nat {
        self.delay_secs as nat
    }
}

impl ReconnectBackoff {
    #[verifier::type_invariant]
    spec fn within_bounds(&self) -> bool {
        initial_delay() <= self.delay_secs <= max_delay()
    }

    /// The pause before any attempt has failed.
    pub fn new() -> (r: Self)
        ensures
            r@ == initial_delay(),
    {
        ReconnectBackoff { delay_secs: 2 }
    }

    /// A connection succeeded: the next failure waits the shortest pause again.
    pub fn on_connected(&mut self)
        ensures
            final(self)@ == initial_delay(),
    {
        self.delay_secs = 2;
    }

    /// The connection was lost or could not be made: the pause, in seconds,
    /// to wait before trying again. The pause after that is twice as long,
    /// at most a minute.
    pub fn next_delay(&mut self) -> (r: u64)
        ensures
            r == old(self)@,
            initial_delay() <= r <= max_delay(),
            final(self)@ == grown(old(self)@),
    {
        proof {
            use_type_invariant(&*self);
        }
        let d = self.delay_secs;
        self.delay_secs = if d < 30 { d * 2 } else { 60 };
        d
    }
}

/// The pause doubles from two seconds after each failure in a row until it
/// reaches a minute, and stays there.
pub proof fn law_backoff_schedule(k: nat)
    ensures
        delay_after(k) == if k < 5 { two_pow(k + 1) } else { max_delay() },
    decreases k,
{
    reveal_with_fuel(two_pow, 7);
    if k > 0 {
        law_backoff_schedule((k - 1) as nat);
    }
}

/// Every pause lies between two seconds and a minute, whatever happened before.
pub proof fn law_backoff_bounded(d: nat)
    requires
        initial_delay() <= d <= max_delay(),
    ensures
        initial_delay() <= grown(d) <= max_delay(),
        d <= grown(d),
{
}

} // verus!
