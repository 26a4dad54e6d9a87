use balance_ledger::error::ApiError as MessageApiError;
use balance_ledger::errors::ApiError;
use balance_ledger::ledger::LedgerError;
use balance_ledger::requests::transactions::ValidationRule;

#[test]
fn plain_errors_classify_requests() {
    assert_eq!(ApiError::not_found(), ApiError::NotFound);
    assert_eq!(ApiError::internal_server_error(), ApiError::InternalServerError);
    assert_eq!(ApiError::unprocessable_entity(), ApiError::UnprocessableEntity);

    assert_eq!(ApiError::NotFound.status_code(), 404);
    assert_eq!(ApiError::InternalServerError.status_code(), 500);
    assert_eq!(ApiError::UnprocessableEntity.status_code(), 422);

    assert_eq!(ApiError::NotFound.label(), "NOT_FOUND");
    assert_eq!(ApiError::InternalServerError.label(), "INTERNAL_SERVER_ERROR");
    assert_eq!(ApiError::UnprocessableEntity.label(), "UNPROCESSABLE_ENTITY");
}

#[test]
fn message_errors_carry_their_text() {
    let e = MessageApiError::not_found("no such client".to_string());
    assert_eq!(e, MessageApiError::NotFound(Some("no such client".to_string())));
    assert_eq!(e.status_code(), 404);
    assert_eq!(e.label(), "NOT_FOUND");
    assert_eq!(e.render(), "NOT_FOUND: no such client");

    let e = MessageApiError::internal_server_error("boom".to_string());
    assert_eq!(e.status_code(), 500);
    assert_eq!(e.render(), "INTERNAL_SERVER_ERROR: boom");

    let e = MessageApiError::bad_request("bad".to_string());
    assert_eq!(e.status_code(), 400);
    assert_eq!(e.render(), "BAD_REQUEST: bad");

    // An absent message renders as empty text after the label.
    let e = MessageApiError::NotFound(None);
    assert_eq!(e.render(), "NOT_FOUND: ");
}

#[test]
fn ledger_errors_map_to_boundary_classes() {
    assert_eq!(LedgerError::AccountNotFound.to_api_error(), ApiError::NotFound);
    assert_eq!(
        LedgerError::ValidationFailed(ValidationRule::DescriptionLength).to_api_error(),
        ApiError::UnprocessableEntity
    );
    assert_eq!(LedgerError::LimitExceeded.to_api_error(), ApiError::UnprocessableEntity);
    assert_eq!(LedgerError::StorageFault.to_api_error(), ApiError::InternalServerError);
}
