use management_company_backend::building::{building_address, or_empty, Address};
use management_company_backend::employee::{deletion_outcome, row_exists, salary_label, EmployeeBody};
use management_company_backend::numeral::append_int;
use management_company_backend::error::Error;
use management_company_backend::incident::IncidentStatus;
use management_company_backend::repair::RepairType;
use management_company_backend::statistics::{MonthlyExpenses, RepairCount};
use management_company_backend::user::{LoginUser, UserAuthResponse, UserBody, UserResponse};

#[test]
fn incident_statuses_have_their_labels() {
    assert_eq!(IncidentStatus::Closed.to_string(), "Закрыто");
    assert_eq!(IncidentStatus::Cancelled.to_string(), "Отменено");
    assert_eq!(IncidentStatus::InProgress.to_string(), "В процессе ремонта");
    assert_eq!(IncidentStatus::Reported.to_string(), "Обработка заявки");
    assert_eq!(IncidentStatus::Resolved.to_string(), "Исправлено");
}

#[test]
fn repair_types_have_their_labels() {
    assert_eq!(RepairType::Emergency.to_string(), "Аварийный");
    assert_eq!(RepairType::Scheduled.to_string(), "Плановый");
}

#[test]
fn repair_counts_add_up() {
    assert_eq!(
        RepairCount::from_counts(Some(3), Some(4)),
        RepairCount { emergency_repairs: 3, scheduled_repairs: 4, total: 7 }
    );
    assert_eq!(
        RepairCount::from_counts(None, Some(4)),
        RepairCount { emergency_repairs: 0, scheduled_repairs: 4, total: 4 }
    );
    assert_eq!(
        RepairCount::from_counts(None, None),
        RepairCount { emergency_repairs: 0, scheduled_repairs: 0, total: 0 }
    );
    assert_eq!(RepairCount::from_counts(Some(i64::MAX), Some(0)).total, i64::MAX);
}

#[test]
fn an_address_is_empty_where_its_columns_are_absent() {
    let address = Address::from_columns(Some("RU".to_string()), None, Some("Kazan".to_string()), None);
    assert_eq!(address.country, "RU");
    assert_eq!(address.region, "");
    assert_eq!(address.city, "Kazan");
    assert_eq!(address.street, "");
}

#[test]
fn a_deletion_that_removed_nothing_finds_no_employee() {
    assert_eq!(deletion_outcome(0, 0), Err(Error::EmployeeNotFound));
    assert_eq!(deletion_outcome(0, 1), Ok(()));
    assert_eq!(deletion_outcome(2, 0), Ok(()));
    assert_eq!(deletion_outcome(2, 1), Ok(()));
}

#[test]
fn a_row_exists_only_where_the_query_says_so() {
    assert!(row_exists(Some(Some(true))));
    assert!(!row_exists(Some(Some(false))));
    assert!(!row_exists(Some(None)));
    assert!(!row_exists(None));
}

#[test]
fn envelopes_hold_their_content() {
    let login = UserBody { user: LoginUser { email: "a@b.c".to_string(), password: "Secr3t!".to_string() } };
    assert_eq!(login.user.email, "a@b.c");
    assert_eq!(login.user.password, "Secr3t!");
    let answer = UserBody { user: UserAuthResponse { token: "t".to_string() } };
    assert_eq!(answer.user.token, "t");
    let profile = UserResponse {
        token: "t".to_string(),
        email: "a@b.c".to_string(),
        first_name: "A".to_string(),
        last_name: "B".to_string(),
    };
    assert_eq!(profile.first_name, "A");
    assert_eq!(profile.last_name, "B");
    let employee = EmployeeBody { employee: 5u8 };
    assert_eq!(employee.employee, 5);
    let month = MonthlyExpenses { name: "Jan".to_string(), total: 12 };
    assert_eq!((month.name.as_str(), month.total), ("Jan", 12));
}

#[test]
fn writes_the_address_of_a_building_on_one_line() {
    assert_eq!(
        building_address("Татарстан", "Казань", "Баумана", 12),
        "Татарстан, Казань, Баумана, дом 12"
    );
    assert_eq!(building_address("", "", "", 0), ", , , дом 0");
    assert_eq!(building_address("r", "c", "s", -7), "r, c, s, дом -7");
    assert_eq!(building_address("r", "c", "s", i32::MAX), "r, c, s, дом 2147483647");
    assert_eq!(building_address("r", "c", "s", i32::MIN), format!("r, c, s, дом {}", i32::MIN));
}

#[test]
fn appends_integers_as_decimal_text() {
    for v in [0, 1, 9, 10, 11, 99, 100, 101, 12345, -1, -10, -12345, i32::MAX, i32::MIN] {
        let mut text = String::from("n=");
        append_int(v, &mut text);
        assert_eq!(text, format!("n={}", v));
    }
}

#[test]
fn absent_columns_have_their_defaults() {
    assert_eq!(or_empty(None), "");
    assert_eq!(or_empty(Some("x".to_string())), "x");
    assert_eq!(salary_label(None), "Не указано");
    assert_eq!(salary_label(Some("45000.00".to_string())), "45000.00");
    assert_eq!(salary_label(Some(String::new())), "");
}
