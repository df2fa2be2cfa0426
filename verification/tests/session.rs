use ferrite_web::session::AuthState;
use std::cell::Cell;
use std::rc::Rc;

type State = AuthState<fn() -> Option<String>, Box<dyn Fn()>>;

#[test]
fn token_roundtrip() {
    let mut state: State = AuthState::new();
    assert_eq!(state.token(), None);
    state.set_token(Some("abc".to_string()));
    assert_eq!(state.token(), Some("abc".to_string()));
    state.set_token(None);
    assert_eq!(state.token(), None);
}

#[test]
fn fire_unauthorized_calls_hook() {
    let fired = Rc::new(Cell::new(false));
    let mut state: State = AuthState::new();
    let fired_clone = fired.clone();
    state.set_on_unauthorized(Box::new(move || fired_clone.set(true)));
    assert!(!fired.get());
    state.fire_unauthorized();
    assert!(fired.get());
}

fn fresh_token() -> Option<String> {
    Some("new".to_string())
}

#[test]
fn refresh_uses_registered_refresher_and_keeps_it() {
    let mut state: State = AuthState::new();
    assert!(state.refresh().is_none());
    state.set_refresher(fresh_token);
    assert_eq!(state.refresh(), Some(Some("new".to_string())));
    assert_eq!(state.refresh(), Some(Some("new".to_string())));
    assert_eq!(state.token(), None);
}

#[test]
fn fire_without_hook_does_nothing() {
    let state: State = AuthState::new();
    state.fire_unauthorized();
    assert_eq!(state.token(), None);
}
