use greenlight::scheduler::{device_key_for_response, invite_code_or_default, recovery_device_name};

#[test]
fn recovery_name_uses_first_eight_challenge_bytes() {
    let challenge = [0x01, 0xab, 0x00, 0xff, 0x10, 0x20, 0x30, 0x4f, 0x99, 0x98];
    assert_eq!(recovery_device_name(&challenge), "recovered-01ab00ff1020304f");
}

#[test]
fn invite_code_defaults_to_empty() {
    assert_eq!(invite_code_or_default(None), "");
    assert_eq!(invite_code_or_default(Some("abc".to_string())), "abc");
}

#[test]
fn local_key_used_when_scheduler_signed() {
    assert_eq!(device_key_for_response(String::new(), "LOCAL".to_string()), "LOCAL");
    assert_eq!(device_key_for_response("REMOTE".to_string(), "LOCAL".to_string()), "REMOTE");
}
