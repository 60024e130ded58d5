use fluid::strict;
use fluid::signal::{Context, Signal};

#[test]
fn read_subscribes_latest_effect_and_set_names_it() {
    let mut ctx = Context::new();
    let mut counter: Signal<i32> = ctx.create_signal(0);
    let effect = ctx.create_effect();
    assert_eq!(effect, 0);
    assert_eq!(*counter.get(&ctx), 0);
    let to_run = counter.set(1);
    assert_eq!(to_run, vec![0]);
    counter.finish_set();
    assert_eq!(*counter.get(&ctx), 1);
}

#[test]
fn read_without_effect_subscribes_no_one() {
    let ctx = Context::new();
    let mut s = ctx.create_signal("Hello");
    assert_eq!(*s.get(&ctx), "Hello");
    assert!(s.set("Hi").is_empty());
    s.finish_set();
    assert_eq!(*s.get(&ctx), "Hi");
}

#[test]
fn every_read_subscribes_again() {
    let mut ctx = Context::new();
    let mut s = ctx.create_signal(1u8);
    ctx.create_effect();
    let second = ctx.create_effect();
    assert_eq!(second, 1);
    s.get(&ctx);
    s.get(&ctx);
    assert_eq!(s.set(2), vec![1, 1]);
    s.finish_set();
}

#[test]
fn reads_during_notification_do_not_subscribe() {
    let mut ctx = Context::new();
    let mut s = ctx.create_signal(0u32);
    ctx.create_effect();
    s.get(&ctx);
    let to_run = s.set(5);
    assert_eq!(to_run, vec![0]);
    // the effect runs and reads the signal again
    assert_eq!(*s.get(&ctx), 5);
    s.finish_set();
    assert_eq!(s.set(6), vec![0]);
    s.finish_set();
}

#[test]
fn nested_set_names_the_same_subscribers() {
    let mut ctx = Context::new();
    let mut s = ctx.create_signal(0i64);
    ctx.create_effect();
    s.get(&ctx);
    assert_eq!(s.set(1), vec![0]);
    assert_eq!(s.set(2), vec![0]);
    s.finish_set();
    s.finish_set();
    assert_eq!(*s.get(&ctx), 2);
}

#[test]
fn strict_effect_follows_every_signal_it_reads() {
    let mut ctx = strict::Context::new();
    let mut a = ctx.create_signal(10);
    let mut b = ctx.create_signal(20);
    let effect = ctx.create_effect();
    assert_eq!(effect, 0);
    assert_eq!(*a.get(&ctx), 10);
    assert_eq!(*b.get(&ctx), 20);
    assert_eq!(a.set(11), vec![0]);
    a.finish_set();
    assert_eq!(b.set(21), vec![0]);
    b.finish_set();
}

#[test]
fn strict_reads_subscribe_the_latest_effect() {
    let mut ctx = strict::Context::new();
    let mut a = ctx.create_signal(());
    let first = ctx.create_effect();
    a.get(&ctx);
    let second = ctx.create_effect();
    a.get(&ctx);
    a.get(&ctx);
    assert_eq!(a.set(()), vec![first, second, second]);
    a.finish_set();
}

#[test]
fn strict_read_during_notification_without_effect_is_allowed() {
    let ctx = strict::Context::new();
    let mut a = ctx.create_signal(1);
    assert!(a.set(2).is_empty());
    assert_eq!(*a.get(&ctx), 2);
    a.finish_set();
}

#[test]
fn effect_follows_every_signal_it_reads() {
    let mut ctx = Context::new();
    let mut a = ctx.create_signal(1);
    let mut b = ctx.create_signal(2);
    let effect = ctx.create_effect();
    assert_eq!(*a.get(&ctx) + *b.get(&ctx), 3);
    assert_eq!(a.set(10), vec![effect]);
    a.finish_set();
    assert_eq!(b.set(20), vec![effect]);
    b.finish_set();
}

