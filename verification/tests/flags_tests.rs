use anachro_485::dispatch::Dispatch;
use anachro_485::dom_discover::Discovery as DomDiscovery;
use anachro_485::dispatch::DispatchSocket;
use anachro_485::sub_token::{DrainStep, Token as SubToken};
use anachro_485::timing::{micros_since, millis_since};

// The three authorization flags: one-shot send, consumed flush, consumed
// empty mark.
#[test]
fn authorization_flags() {
    let mut d = Dispatch::new(2);
    let disco: DispatchSocket = d.register_port(10).unwrap();
    let plain: DispatchSocket = d.register_port(30).unwrap();

    // Only authorized ports may touch the flags.
    assert!(d.auth_send(&plain).is_err());
    assert!(d.auth_flush(&plain).is_err());
    assert!(d.clear_empty(&plain).is_err());
    assert!(d.is_empty(&plain).is_err());

    d.auth_send(&disco).unwrap();
    assert!(d.ioq.io_auth.is_send_authd());
    d.ioq.io_auth.clear_send_auth();
    assert!(!d.ioq.io_auth.is_send_authd());

    d.auth_flush(&disco).unwrap();
    assert!(d.ioq.io_auth.is_flush_authd());
    // Consumed: the second look finds it cleared.
    assert!(!d.ioq.io_auth.is_flush_authd());

    d.ioq.io_auth.mark_empty();
    assert_eq!(d.is_empty(&disco), Ok(true));
    assert_eq!(d.is_empty(&disco), Ok(false));

    d.ioq.io_auth.mark_empty();
    d.clear_empty(&disco).unwrap();
    assert_eq!(d.is_empty(&disco), Ok(false));
}

// The line driver's handle is handed out exactly once.
#[test]
fn io_handle_taken_once() {
    let mut d = Dispatch::new(1);
    assert!(d.take_io_handle().is_some());
    assert!(d.take_io_handle().is_none());
}

// Tick arithmetic survives the 32-bit wrap.
#[test]
fn wrap_safe_timing() {
    assert_eq!(micros_since(10, 5), 5);
    assert_eq!(micros_since(5, u32::MAX - 4), 10);
    assert_eq!(millis_since(2_000_000, 0), 2_000);
    assert_eq!(millis_since(500, u32::MAX - 499), 1);
}

// Boost pacing: the short delay holds until nothing new arrived for three
// seconds.
#[test]
fn boost_pacing() {
    let mut disco = DomDiscovery::new(DispatchSocket { idx: 0, port: 10, has_auth: true });
    assert_eq!(disco.cycle_delay_ms(), 1000);
    disco.boost_mode = true;
    disco.record_discovery(1_000_000);
    assert_eq!(disco.cycle_delay_ms(), 100);
    disco.update_boost(2_000_000);
    assert!(disco.boost_mode);
    disco.update_boost(1_000_000 + 3_000_000);
    assert!(!disco.boost_mode);
    assert!(disco.last_disc.is_none());
}

// Draining under the token: wait a quarter of the budget while work is
// pending, release when the line is empty or the budget elapsed.
#[test]
fn token_drain_steps() {
    assert!(matches!(SubToken::drain_step(100, 100, 1000, false), DrainStep::Wait(250)));
    assert!(matches!(SubToken::drain_step(100, 100, 1000, true), DrainStep::Release));
    assert!(matches!(SubToken::drain_step(1_200, 100, 1000, false), DrainStep::Release));
}
