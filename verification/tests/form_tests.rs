use s3_buddy::FormState;

#[test]
fn test_form_defaults() {
    let form = FormState::default();
    assert_eq!(form.s3_url, "");
    assert_eq!(form.short_url, "");
    assert_eq!(form.hosted_zone_id, "");
    assert_eq!(form.presign_duration_hours, "12");
    assert_eq!(form.refresh_interval_hours, "11");
    assert_eq!(form.current_field, 0);
}

#[test]
fn test_form_clear() {
    let mut form = FormState::default();
    form.s3_url = "s3://bucket/key".to_string();
    form.presign_duration_hours = "99".to_string();
    form.current_field = 3;

    form.clear();
    assert_eq!(form.s3_url, "");
    assert_eq!(form.presign_duration_hours, "12");
    assert_eq!(form.current_field, 0);
}

#[test]
fn test_form_to_request() {
    let mut form = FormState::default();
    form.s3_url = "s3://bucket/docs/".to_string();
    form.short_url = "docs.example.com".to_string();
    form.hosted_zone_id = "Z1234567890ABC".to_string();

    let request = form.to_request().unwrap();
    assert_eq!(request.s3_url, "s3://bucket/docs/");
    assert_eq!(request.short_url, "docs.example.com");
    assert_eq!(request.hosted_zone_id, "Z1234567890ABC");
    assert_eq!(request.presign_duration_secs, 12 * 3600);
    assert_eq!(request.refresh_interval_secs, 11 * 3600);
}

#[test]
fn test_form_invalid_presign_duration() {
    let mut form = FormState::default();
    form.presign_duration_hours = "abc".to_string();
    assert_eq!(form.to_request().unwrap_err(), "Invalid presign duration");

    form.presign_duration_hours = "".to_string();
    assert_eq!(form.to_request().unwrap_err(), "Invalid presign duration");

    // the value in seconds must fit too
    form.presign_duration_hours = "9999999999999999999".to_string();
    assert_eq!(form.to_request().unwrap_err(), "Invalid presign duration");
}

#[test]
fn test_form_invalid_refresh_interval() {
    let mut form = FormState::default();
    form.refresh_interval_hours = "11h".to_string();
    assert_eq!(form.to_request().unwrap_err(), "Invalid refresh interval");
}
