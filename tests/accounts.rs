use collab_sync::{
    detect_identifier_type, is_valid_email_format, is_valid_phone_format, judge_password,
    normalize_limit, parse_addon_status, parse_addon_type, parse_billing_type, parse_status,
    phone_digits_valid, usage_type_to_str, validate_password, AddonStatus, AddonType, BillingType,
    AFSystemNotification, AFUserChange, IdentifierError, IdentifierType, PasswordError, RealtimeUser, SubscriptionStatus, UsageType,
    UserDevice, UserPassword,
};

#[test]
fn billing_names_round_trip() {
    assert_eq!(BillingType::Monthly.as_str(), "monthly");
    assert_eq!(BillingType::Yearly.as_str(), "yearly");
    assert_eq!(BillingType::Monthly.months(), 1);
    assert_eq!(BillingType::Yearly.months(), 12);
    assert_eq!(parse_billing_type("yearly"), Some(BillingType::Yearly));
    assert_eq!(parse_billing_type("weekly"), None);
}

#[test]
fn status_names_round_trip() {
    for s in [
        SubscriptionStatus::Active,
        SubscriptionStatus::Canceled,
        SubscriptionStatus::Expired,
        SubscriptionStatus::Pending,
    ] {
        assert_eq!(parse_status(s.as_str()), Some(s));
    }
    assert_eq!(parse_status("Active"), None);
    assert_eq!(AddonType::AiToken.as_str(), "ai_token");
    assert_eq!(parse_addon_type("storage"), Some(AddonType::Storage));
    assert_eq!(parse_addon_type("ai"), None);
    assert_eq!(AddonStatus::Used.as_str(), "used");
    assert_eq!(parse_addon_status("expired"), Some(AddonStatus::Expired));
    assert_eq!(parse_addon_status(""), None);
    assert_eq!(usage_type_to_str(UsageType::StorageBytes), "storage_bytes");
    assert_eq!(usage_type_to_str(UsageType::AiImage), "ai_image");
}

#[test]
fn limits_of_zero_or_less_mean_none() {
    assert_eq!(normalize_limit(0), None);
    assert_eq!(normalize_limit(-3), None);
    assert_eq!(normalize_limit(7), Some(7));
    assert_eq!(normalize_limit(i32::MAX), Some(i32::MAX as i64));
}

#[test]
fn realtime_user_keys() {
    let user = RealtimeUser::new(-42, "phone".to_string(), "s1".to_string(), 1000, "1.0".to_string());
    assert_eq!(user.user_device(), "-42:phone");
    assert_eq!(user.describe(), "uid:-42|device_id:phone|connected_at:1000");
    let key = UserDevice::of_user(&user);
    assert_eq!(key.uid(), -42);
    assert_eq!(key.device_id(), "phone");
    let other = UserDevice::new("desk", 7);
    assert_eq!(other.uid(), 7);
    let zero = RealtimeUser::new(0, "d".to_string(), "s".to_string(), 0, "".to_string());
    assert_eq!(zero.user_device(), "0:d");
}

#[test]
fn email_shapes() {
    assert!(is_valid_email_format("a@b.com"));
    assert!(!is_valid_email_format("a@b@c.com"));
    assert!(!is_valid_email_format("a@.com"));
    assert!(!is_valid_email_format("a@com."));
    assert!(!is_valid_email_format("a@com"));
    assert!(!is_valid_email_format("a@"));
    assert!(!is_valid_email_format("abc"));
}

#[test]
fn phone_shapes() {
    assert!(is_valid_phone_format("+8613800138000"));
    assert!(is_valid_phone_format("  13800138000 "));
    assert!(is_valid_phone_format("\u{3000}+13800138000\u{a0}"));
    assert!(!is_valid_phone_format("123456789"));
    assert!(!is_valid_phone_format("1380013800a"));
    assert!(phone_digits_valid("++1234567890"));
    assert!(!phone_digits_valid(" 1234567890"));
}

#[test]
fn identifier_kinds() {
    assert_eq!(detect_identifier_type("x@y.cn"), Ok(IdentifierType::Email));
    assert_eq!(detect_identifier_type("x@y"), Err(IdentifierError::InvalidEmail));
    assert_eq!(detect_identifier_type("+8613800138000"), Ok(IdentifierType::Phone));
    assert_eq!(detect_identifier_type("12345"), Err(IdentifierError::InvalidPhone));
    assert_eq!(IdentifierType::Phone.as_str(), "phone");
}

#[test]
fn password_rules() {
    assert!(validate_password("Hello12!"));
    assert!(!validate_password("hello12!"));
    assert!(!validate_password("Hello!"));
    assert!(!validate_password("Hel1!"));
    assert!(UserPassword::parse("Hello12!".to_string()).is_ok());
    assert_eq!(UserPassword::parse("   ".to_string()).err(), Some(PasswordError::Empty));
    assert_eq!(UserPassword::parse("Hello12!(".to_string()).err(), Some(PasswordError::ForbiddenCharacters));
    assert_eq!(UserPassword::parse("hello12!".to_string()).err(), Some(PasswordError::InvalidFormat));
    let long = "Aa1!".repeat(26);
    assert_eq!(UserPassword::parse(long).err(), Some(PasswordError::TooLong));
    assert_eq!(UserPassword::parse("Hello12!".to_string()).unwrap().as_str(), "Hello12!");
}

#[test]
fn password_verdict_order() {
    assert_eq!(judge_password(0, 500, "(", false), Err(PasswordError::Empty));
    assert_eq!(judge_password(3, 101, "(", false), Err(PasswordError::TooLong));
    assert_eq!(judge_password(3, 100, "a{b", true), Err(PasswordError::ForbiddenCharacters));
    assert_eq!(judge_password(3, 3, "abc", false), Err(PasswordError::InvalidFormat));
    assert_eq!(judge_password(3, 3, "abc", true), Ok(()));
}

#[test]
fn notifications_reach_their_recipients() {
    let mut n = AFSystemNotification {
        id: "n1".to_string(),
        workspace_id: "w".to_string(),
        notification_type: "mention".to_string(),
        title: "t".to_string(),
        message: "m".to_string(),
        payload_json: "{}".to_string(),
        created_at: 0,
        recipient_uid: 0,
    };
    assert!(n.is_for(5));
    n.recipient_uid = 7;
    assert!(n.is_for(7));
    assert!(!n.is_for(5));
    let change = AFUserChange { uid: 3, name: None, email: None, metadata: None };
    assert!(change.is_for(3));
    assert!(!change.is_for(4));
}
