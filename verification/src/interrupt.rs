//! An interrupt that keeps the work.
//!
//! The first signal asks the render to stop after the lap it is in, save and
//! say that it is partial. The second exits at once: if the save itself is
//! wedged there must still be a way out.

use vstd::prelude::*;

verus! {

/// The exit code of a program that a second interrupt ended.
pub const EXIT_CODE: i32 = 130;

/// What has been asked for since the handler was installed.
#[derive(Clone, Copy, Debug, PartialEq, Eq, Structural)]
pub struct Interrupts {
    pub installed: bool,
    pub interrupted: bool,
    /// Signals so far.
    pub count: u32,
}

/// What a signal does.
#[derive(Clone, Copy, Debug, PartialEq, Eq, Structural)]
pub enum SignalEffect {
    /// The render is asked to stop and save.
    Ask,
    /// The program ends, with this code.
    Exit(i32),
}

impl Interrupts {
    /// Nothing installed and nothing asked.
    pub fn new() -> (s: Interrupts)
        ensures
            s == (Interrupts { installed: false, interrupted: false, count: 0 }),
    {
        Interrupts { installed: false, interrupted: false, count: 0 }
    }
}

/// Install the handler: whether there is anything to register. Only the first
/// call has, and none loses an interrupt that was already asked for.
pub fn install(s: &mut Interrupts) -> (register: bool)
    ensures
        register == !old(s).installed,
        *final(s) == (Interrupts { installed: true, ..*old(s) }),
{
    let register = !s.installed;
    s.installed = true;
    register
}

/// A signal: the first asks, and every one after it exits.
pub fn signal(s: &mut Interrupts) -> (e: SignalEffect)
    ensures
        old(s).count == 0 ==> e == SignalEffect::Ask && *final(s) == (Interrupts {
            interrupted: true,
            count: 1,
            ..*old(s)
        }),
        old(s).count > 0 ==> e == SignalEffect::Exit(EXIT_CODE) && final(s).interrupted == old(
            s,
        ).interrupted && final(s).installed == old(s).installed && final(s).count == (if old(
            s,
        ).count == u32::MAX {
            0
        } else {
            old(s).count + 1
        }),
{
    let before: u32 = s.count;
    s.count = before.wrapping_add(1);
    if before >= 1 {
        SignalEffect::Exit(EXIT_CODE)
    } else {
        s.interrupted = true;
        SignalEffect::Ask
    }
}

/// Whether an interrupt has been asked for.
pub fn requested(s: &Interrupts) -> (b: bool)
    ensures
        b == s.interrupted,
{
    s.interrupted
}

/// Forget any interrupt, so that one render's cannot stop the next.
pub fn clear(s: &mut Interrupts)
    ensures
        *final(s) == (Interrupts { interrupted: false, count: 0, ..*old(s) }),
{
    s.interrupted = false;
    s.count = 0;
}

/// A program that an interrupt ends says so: the signal's number past 128.
pub proof fn an_interrupt_is_told_from_a_failure()
    ensures
        EXIT_CODE == 128 + 2,
{
}

} // verus!
