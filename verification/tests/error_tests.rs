use management_company_backend::error::{Error, Fault};

const ALL: [Error; 9] = [
    Error::Unauthorized,
    Error::UserNotFound,
    Error::EmployeeNotFound,
    Error::Forbidden,
    Error::NotFound,
    Error::Database,
    Error::Internal(Fault::CredentialEncoding),
    Error::Internal(Fault::Worker),
    Error::PositionNotFound,
];

#[test]
fn status_codes_follow_the_kind_of_failure() {
    assert_eq!(Error::Unauthorized.status_code(), 401);
    assert_eq!(Error::UserNotFound.status_code(), 401);
    assert_eq!(Error::NotFound.status_code(), 404);
    assert_eq!(Error::EmployeeNotFound.status_code(), 404);
    assert_eq!(Error::PositionNotFound.status_code(), 404);
    assert_eq!(Error::Database.status_code(), 500);
    assert_eq!(Error::Internal(Fault::SigningKey).status_code(), 500);
    assert_eq!(Error::Forbidden.status_code(), 403);
}

#[test]
fn messages_name_the_failure() {
    assert_eq!(Error::Unauthorized.message(), "Authentication required");
    assert_eq!(Error::UserNotFound.message(), "User with these credentials not found");
    assert_eq!(Error::EmployeeNotFound.message(), "Employee ID does not exist");
    assert_eq!(Error::Forbidden.message(), "User may not perform that action");
    assert_eq!(Error::NotFound.message(), "Request path not found");
    assert_eq!(Error::Database.message(), "An error occurred with the database");
    assert_eq!(Error::PositionNotFound.message(), "Position ID does not exist");
}

#[test]
fn internal_faults_share_one_message() {
    for fault in [
        Fault::SigningKey,
        Fault::TokenLifetime,
        Fault::CostParameters,
        Fault::CredentialEncoding,
        Fault::Hashing,
        Fault::Worker,
        Fault::Collaborator,
    ] {
        assert_eq!(Error::Internal(fault).message(), "An internal server error occurred");
        assert_eq!(Error::Internal(fault).status_code(), 500);
    }
}

#[test]
fn only_unauthorized_carries_the_challenge() {
    for error in ALL {
        let response = error.into_response();
        assert_eq!(response.status, error.status_code());
        assert_eq!(response.body, error.message());
        if error == Error::Unauthorized {
            assert_eq!(response.challenge, Some("Token".to_string()));
        } else {
            assert_eq!(response.challenge, None);
        }
    }
}

#[test]
fn the_default_failure_is_not_found() {
    assert_eq!(Error::default(), Error::NotFound);
}
