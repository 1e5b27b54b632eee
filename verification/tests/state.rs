use untroche::ondyst::util::state::{initial_state, State};
use untroche::portal::util::state::initial_state as portal_initial_state;
use untroche::portal::util::state::State as PortalState;

#[test]
fn stage_names_round_trip() {
    for s in [State::Prepare, State::Register, State::Active, State::Closed, State::Maintenance] {
        assert_eq!(State::from_name(&s.to_string()), Some(s));
        assert_eq!(s.as_str().parse::<State>(), Ok(s));
    }
    assert_eq!(State::from_name("Active"), None);
    assert_eq!("nope".parse::<State>(), Err(()));
    for s in [PortalState::Active, PortalState::Closed, PortalState::Maintenance] {
        assert_eq!(PortalState::from_name(&s.to_string()), Some(s));
    }
    assert_eq!(PortalState::from_name("prepare"), None);
}

#[test]
fn what_each_stage_allows() {
    assert!(State::Active.only_active().is_ok());
    let e = State::Prepare.only_active().unwrap_err();
    assert_eq!((e.status, e.message), (503, "準備中です。開催までお待ちください"));
    let e = State::Register.only_active().unwrap_err();
    assert_eq!(e.status, 503);
    let e = State::Closed.only_active().unwrap_err();
    assert_eq!((e.status, e.message), (410, "当サイトの運営は終了しました"));
    assert!(State::Register.only_open().is_ok());
    assert!(State::Active.only_open().is_ok());
    assert_eq!(State::Prepare.only_open().unwrap_err().status, 503);
    assert_eq!(State::Closed.only_open().unwrap_err().status, 410);
    assert!(PortalState::Active.only_active().is_ok());
    assert_eq!(PortalState::Closed.only_active().unwrap_err().status, 410);
    assert_eq!(PortalState::Maintenance.only_active().unwrap_err().status, 410);
}

#[test]
fn the_stage_at_start_up() {
    assert_eq!(initial_state(None), Some((State::Maintenance, true)));
    assert_eq!(initial_state(Some("active")), Some((State::Active, false)));
    assert_eq!(initial_state(Some("nonsense")), None);
    assert_eq!(portal_initial_state(None), Some((PortalState::Maintenance, true)));
    assert_eq!(portal_initial_state(Some("closed")), Some((PortalState::Closed, false)));
    assert_eq!(portal_initial_state(Some("prepare")), None);
}
