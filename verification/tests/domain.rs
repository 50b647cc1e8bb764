use fake::faker::internet::en::SafeEmail;
use fake::Fake;
use zero2prod::domain::{FormData, NewSubscriber, SubscriberEmail, SubscriberName};

#[test]
fn valid_emails_are_parsed_successfully() {
    let email = SafeEmail().fake();
    assert!(SubscriberEmail::parse(email).is_ok());
}

#[test]
fn ordinary_email_is_accepted() {
    let parsed = SubscriberEmail::parse("ursula_le_guin@gmail.com".to_string()).unwrap();
    assert_eq!(parsed.as_str(), "ursula_le_guin@gmail.com");
}

#[test]
fn empty_email_is_rejected() {
    let rejected = SubscriberEmail::parse(String::new());
    assert!(rejected.is_err());
    assert_eq!(rejected.unwrap_err(), " is not a valid subscriber email.");
}

#[test]
fn email_without_at_symbol_is_rejected() {
    assert_eq!(
        SubscriberEmail::parse("definitely-not-an-email".to_string()).unwrap_err(),
        "definitely-not-an-email is not a valid subscriber email."
    );
}

#[test]
fn email_with_empty_user_part_is_rejected() {
    assert!(SubscriberEmail::parse("@gmail.com".to_string()).is_err());
}

#[test]
fn ordinary_name_is_accepted() {
    let parsed = SubscriberName::parse("le guin".to_string()).unwrap();
    assert_eq!(parsed.as_str(), "le guin");
}

#[test]
fn empty_name_is_rejected() {
    assert!(SubscriberName::parse(String::new()).is_err());
}

#[test]
fn whitespace_only_name_is_rejected() {
    assert!(SubscriberName::parse("   ".to_string()).is_err());
}

#[test]
fn overlong_name_is_rejected() {
    let long = "a".repeat(257);
    assert!(SubscriberName::parse(long).is_err());
    let just_fits = "a".repeat(256);
    assert!(SubscriberName::parse(just_fits).is_ok());
}

#[test]
fn valid_form_data_converts_to_new_subscriber() {
    let form = FormData { name: "le guin".to_string(), email: "ursula_le_guin@gmail.com".to_string() };
    let subscriber = NewSubscriber::try_from(form).unwrap();
    assert_eq!(subscriber.name.as_str(), "le guin");
    assert_eq!(subscriber.email.as_str(), "ursula_le_guin@gmail.com");
}

#[test]
fn form_with_bad_name_reports_the_name() {
    let form = FormData { name: String::new(), email: "ursula_le_guin@gmail.com".to_string() };
    assert_eq!(NewSubscriber::try_from(form).unwrap_err(), " is not a valid subscriber name.");
}

#[test]
fn form_with_bad_email_reports_the_email() {
    let form = FormData { name: "Ursula".to_string(), email: "definitely-not-an-email".to_string() };
    assert_eq!(
        NewSubscriber::try_from(form).unwrap_err(),
        "definitely-not-an-email is not a valid subscriber email."
    );
}
