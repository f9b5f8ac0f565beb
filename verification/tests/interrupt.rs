//! Asking a long render to stop.

use fracturize::interrupt::{clear, install, requested, signal, Interrupts, SignalEffect, EXIT_CODE};

#[test]
fn install_is_idempotent_and_does_not_clear() {
    let mut s = Interrupts::new();
    clear(&mut s);
    assert!(install(&mut s), "the first one registers");
    s.interrupted = true;
    assert!(!install(&mut s), "the second one does not");
    assert!(requested(&s), "install() must not reset an interrupt already asked for");
    clear(&mut s);
    assert!(!requested(&s));
}

#[test]
fn a_second_signal_means_it() {
    let mut s = Interrupts::new();
    install(&mut s);
    assert!(!requested(&s));
    assert_eq!(signal(&mut s), SignalEffect::Ask);
    assert!(requested(&s));
    assert_eq!(signal(&mut s), SignalEffect::Exit(EXIT_CODE));
    clear(&mut s);
    assert_eq!(signal(&mut s), SignalEffect::Ask, "one render's signals do not count for the next");
}
