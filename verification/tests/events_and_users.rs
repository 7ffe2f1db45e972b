use flowy_grid::event_map::{create, handler_for, GridEvent, GridEventHandler};
use flowy_grid::text::decimal_string;
use flowy_grid::user_status::{User, UserDetail, UserStatus};

#[test]
fn user_status_defaults_to_unknown() {
    assert_eq!(UserStatus::default(), UserStatus::Unknown);
    let detail = UserDetail::default();
    assert_eq!(detail.status, UserStatus::Unknown);
    assert_eq!(detail.email, "");
    assert_eq!(detail.name, "");
}

#[test]
fn user_detail_from_user_is_logged_in() {
    let user = User {
        id: "1".to_string(),
        name: "nathan".to_string(),
        token: "SECRET-REDACTED".to_string(),
        email: "nathan@appflowy.io".to_string(),
        workspace: "w".to_string(),
    };
    let detail = UserDetail::from(user);
    assert_eq!(detail.status, UserStatus::Login);
    assert_eq!(detail.name, "nathan");
    assert_eq!(detail.email, "nathan@appflowy.io");
}

#[test]
fn user_status_numbers_round_trip() {
    for s in [UserStatus::Unknown, UserStatus::Login, UserStatus::Expired] {
        assert_eq!(UserStatus::from_i32(s.value()), Some(s));
    }
    assert_eq!(UserStatus::Expired.value(), 2);
    assert_eq!(UserStatus::from_i32(3), None);
    assert_eq!(UserStatus::from_i32(-1), None);
}

#[test]
fn grid_event_numbers_round_trip() {
    assert_eq!(GridEvent::GetFields.value(), 10);
    assert_eq!(GridEvent::InsertSelectOption.value(), 71);
    assert_eq!(GridEvent::from_i32(50), Some(GridEvent::CreateRow));
    assert_eq!(GridEvent::from_i32(2), None);
    for v in 0..80 {
        if let Some(e) = GridEvent::from_i32(v) {
            assert_eq!(e.value(), v);
        }
    }
}

#[test]
fn grid_module_answers_all_but_select_options() {
    let module = create(42u32);
    assert_eq!(module.name, "flowy-grid");
    assert_eq!(module.data, 42);
    let events = module.events;
    assert_eq!(events.len(), 14);
    assert_eq!(handler_for(&events, GridEvent::GetSelectOptions), None);
    assert_eq!(handler_for(&events, GridEvent::GetEditFieldContext), Some(GridEventHandler::GetFieldContext));
    assert_eq!(handler_for(&events, GridEvent::UpdateCell), Some(GridEventHandler::UpdateCell));
    assert_eq!(events[0], (GridEvent::GetGridData, GridEventHandler::GetGridData));
}

#[test]
fn decimal_text_of_numbers() {
    assert_eq!(decimal_string(0), "0");
    assert_eq!(decimal_string(7), "7");
    assert_eq!(decimal_string(10), "10");
    assert_eq!(decimal_string(1203), "1203");
}
