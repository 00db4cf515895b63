//! The two capabilities a round draws on: a source of dice values and a clock.

use vstd::prelude::*;

verus! {

/// A source of dice values.
pub trait Rand {
    /// A value drawn from `from..=to`.
    fn rand(&mut self, from: u8, to: u8) -> (r: u8)
        requires
            from <= to,
        ensures
            from <= r <= to,
    ;
}

/// A clock, read in milliseconds.
pub trait Now {
    /// The current instant.
    fn now(&self) -> u64;
}

#[verifier::external_type_specification]
#[verifier::external_body]
pub struct ExThreadRng(rand::rngs::ThreadRng);

#[verifier::external_type_specification]
#[verifier::external_body]
pub struct ExInstant(std::time::Instant);

/// Relies on rand::thread_rng: a handle on the thread-local generator.
#[verifier::external_body]
fn thread_generator() -> rand::rngs::ThreadRng {
    rand::thread_rng()
}

/// Relies on std::time::Instant::now: a reading of the monotonic clock.
#[verifier::external_body]
fn instant_now() -> std::time::Instant {
    std::time::Instant::now()
}

/// Relies on rand::Rng::gen_range: a value of the inclusive range `from..=to`,
/// which it refuses to sample when empty.
#[verifier::external_body]
fn gen_inclusive(rng: &mut rand::rngs::ThreadRng, from: u8, to: u8) -> (r: u8)
    requires
        from <= to,
    ensures
        from <= r <= to,
{
    rand::Rng::gen_range(rng, from..=to)
}

/// Relies on std::time::Instant::elapsed: the time since `origin`, here in
/// whole milliseconds.
#[verifier::external_body]
fn millis_since(origin: &std::time::Instant) -> u64 {
    origin.elapsed().as_millis() as u64
}

/// Dice values from the thread-local generator of `rand`.
pub struct ThreadRand {
    rng: rand::rngs::ThreadRng,
}

impl ThreadRand {
    pub fn new() -> ThreadRand {
        ThreadRand { rng: thread_generator() }
    }
}

impl Rand for ThreadRand {
    fn rand(&mut self, from: u8, to: u8) -> (r: u8) {
        gen_inclusive(&mut self.rng, from, to)
    }
}

/// Milliseconds since the clock was made, on the monotonic system clock.
pub struct SystemClock {
    origin: std::time::Instant,
}

impl SystemClock {
    pub fn new() -> SystemClock {
        SystemClock { origin: instant_now() }
    }
}

impl Now for SystemClock {
    fn now(&self) -> u64 {
        millis_since(&self.origin)
    }
}

} // verus!
