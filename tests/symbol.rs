use cfront::span::{with_session_globals, SessionGlobals, Symbol};
use cfront::symbol::Interner;

#[test]
fn keywords_are_preregistered() {
    let mut i = Interner::fresh();
    assert_eq!(i.len(), 2);
    assert_eq!(i.intern("int"), Symbol::new(0));
    assert_eq!(i.intern("return"), Symbol::new(1));
    assert_eq!(i.len(), 2);
}

#[test]
fn interning_is_idempotent_and_distinct() {
    let mut i = Interner::fresh();
    let a = i.intern("main");
    let b = i.intern("main");
    let c = i.intern("foo");
    assert_eq!(a, b);
    assert_ne!(a, c);
    assert_eq!(a, Symbol::new(2));
    assert_eq!(c, Symbol::new(3));
    assert_eq!(i.iter(), vec!["int", "return", "main", "foo"]);
}

#[test]
fn interning_the_empty_string() {
    let mut i = Interner::fresh();
    let e = i.intern("");
    assert_eq!(e, Symbol::new(2));
    assert_eq!(i.intern(""), e);
}

#[test]
fn session_interns_through_its_interner() {
    let mut sess = SessionGlobals::new();
    assert_eq!(Symbol::intern(&mut sess, "return"), Symbol::new(1));
    let x = Symbol::intern(&mut sess, "x");
    assert_eq!(x, Symbol::new(2));
    assert_eq!(Symbol::intern(&mut sess, "x"), x);
    assert_eq!(sess.interner.iter(), vec!["int", "return", "x"]);
}

#[test]
fn with_session_globals_hands_over_the_session() {
    let mut sess = SessionGlobals::new();
    let (a, n) = with_session_globals(&mut sess, |s| {
        let a = s.interner.intern("main");
        (a, s.interner.len())
    });
    assert_eq!(a, Symbol::new(2));
    assert_eq!(n, 3);
    assert_eq!(sess.interner.len(), 3);
}
