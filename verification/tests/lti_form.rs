use digidl::buffered_response::BufferedResponse;
use digidl::error::ScraperError;
use digidl::lti_form::{LTIForm, Resolved};

fn resp(body: &str) -> BufferedResponse {
    BufferedResponse::new(b"https://digi4school.at/lti".to_vec(), 200, vec![], body.as_bytes().to_vec())
}

const GOOD_FORM: &str = "<html><body><form id=\"lti\" name=\"ltiLaunchForm\" enctype=\"application/x-www-form-urlencoded\" action=\"https://kat.digi4school.at/lti\" method=\"post\"><input type=\"hidden\" name=\"oauth_token\" value=\"t1\"><input type=\"hidden\" name=\"oauth_sig\" value=\"s2\"></form></body></html>";

#[test]
fn terminal_page_has_no_form() {
    let r = resp("<html><body><p>done</p></body></html>");
    assert!(LTIForm::new(&r).unwrap().is_none());
}

#[test]
fn single_form_is_validated_and_extracted() {
    let r = resp(GOOD_FORM);
    let form = LTIForm::new(&r).unwrap().unwrap();
    assert_eq!(form.url, b"https://kat.digi4school.at/lti".to_vec());
    assert_eq!(form.method, b"POST".to_vec());
    assert_eq!(
        form.form_data,
        vec![
            (b"oauth_token".to_vec(), b"t1".to_vec()),
            (b"oauth_sig".to_vec(), b"s2".to_vec()),
        ]
    );
}

#[test]
fn two_forms_are_an_ambiguity_error() {
    let two = format!("{}{}", GOOD_FORM, GOOD_FORM);
    let r = resp(&two);
    assert!(matches!(
        LTIForm::new(&r),
        Err(ScraperError::AmbiguousRedirectForm)
    ));
}

#[test]
fn missing_enctype_names_the_attribute() {
    let body = "<form id=\"lti\" name=\"ltiLaunchForm\" action=\"https://kat.digi4school.at/lti\" method=\"post\"></form>";
    let r = resp(body);
    match LTIForm::new(&r) {
        Err(ScraperError::MissingFormAttribute { attribute, markup }) => {
            assert_eq!(attribute, "enctype");
            assert!(!markup.is_empty());
        }
        other => panic!("expected a missing-attribute error, got {:?}", other.is_ok()),
    }
}

#[test]
fn missing_method_names_the_attribute() {
    let body = "<form id=\"lti\" name=\"ltiLaunchForm\" enctype=\"application/x-www-form-urlencoded\" action=\"https://kat.digi4school.at/lti\"></form>";
    let r = resp(body);
    match LTIForm::new(&r) {
        Err(ScraperError::MissingFormAttribute { attribute, .. }) => {
            assert_eq!(attribute, "method");
        }
        _ => panic!("expected a missing-attribute error"),
    }
}

#[test]
fn wrong_enctype_is_a_bad_attribute_error() {
    let body = "<form id=\"lti\" name=\"ltiLaunchForm\" enctype=\"multipart/form-data\" action=\"https://kat.digi4school.at/lti\" method=\"post\"></form>";
    let r = resp(body);
    match LTIForm::new(&r) {
        Err(ScraperError::BadFormAttribute { attribute, found, .. }) => {
            assert_eq!(attribute, "enctype");
            assert_eq!(found, b"multipart/form-data".to_vec());
        }
        _ => panic!("expected a bad-attribute error"),
    }
}

#[test]
fn wrong_form_designator_is_a_bad_attribute_error() {
    let body = "<form id=\"lti\" name=\"otherForm\" enctype=\"application/x-www-form-urlencoded\" action=\"https://kat.digi4school.at/lti\" method=\"post\"></form>";
    let r = resp(body);
    match LTIForm::new(&r) {
        Err(ScraperError::BadFormAttribute { attribute, found, .. }) => {
            assert_eq!(attribute, "name");
            assert_eq!(found, b"otherForm".to_vec());
        }
        _ => panic!("expected a bad-attribute error"),
    }
}

#[test]
fn field_without_value_is_fatal() {
    let body = "<form id=\"lti\" name=\"ltiLaunchForm\" enctype=\"application/x-www-form-urlencoded\" action=\"https://kat.digi4school.at/lti\" method=\"post\"><input type=\"hidden\" name=\"broken\"></form>";
    let r = resp(body);
    match LTIForm::new(&r) {
        Err(ScraperError::MissingFormAttribute { attribute, .. }) => {
            assert_eq!(attribute, "value");
        }
        _ => panic!("expected a missing-attribute error"),
    }
}

#[test]
fn encoded_body_is_form_urlencoded() {
    let r = resp("<form id=\"lti\" name=\"ltiLaunchForm\" enctype=\"application/x-www-form-urlencoded\" action=\"https://kat.digi4school.at/lti\" method=\"post\"><input name=\"user\" value=\"a b\"><input name=\"tok\" value=\"x&y=1\"></form>");
    let form = LTIForm::new(&r).unwrap().unwrap();
    assert_eq!(form.encoded_body(), b"user=a+b&tok=x%26y%3D1".to_vec());
    // The encoding agrees with the reference implementation.
    let reference = serde_urlencoded::to_string([("user", "a b"), ("tok", "x&y=1")]).unwrap();
    assert_eq!(form.encoded_body(), reference.into_bytes());
}

#[test]
fn chain_of_two_forms_resolves_in_three_fetches() {
    let first = resp(GOOD_FORM);
    let second = resp(GOOD_FORM);
    let terminal = resp("<html><body>landing</body></html>");
    match LTIForm::follow(first, vec![second, terminal]).unwrap() {
        Resolved::Terminal(buf, fetches) => {
            assert_eq!(fetches, 3);
            assert_eq!(buf.bytes().as_slice(), b"<html><body>landing</body></html>");
        }
        Resolved::Exhausted => panic!("chain should have terminated"),
    }
}

#[test]
fn terminal_first_page_resolves_in_one_fetch() {
    let first = resp("<html><body>landing</body></html>");
    match LTIForm::follow(first, vec![]).unwrap() {
        Resolved::Terminal(_, fetches) => assert_eq!(fetches, 1),
        Resolved::Exhausted => panic!("chain should have terminated"),
    }
}

#[test]
fn exhausted_transcript_is_reported() {
    let first = resp(GOOD_FORM);
    match LTIForm::follow(first, vec![]).unwrap() {
        Resolved::Terminal(_, _) => panic!("nothing to terminate with"),
        Resolved::Exhausted => {}
    }
}
