use picoserve::response::display_contains;
use picoserve::response::CustomResponse;
use picoserve::status::StatusCode;

#[test]
fn display_contains_works() {
    #[allow(dead_code)]
    #[derive(Debug)]
    enum Failure {
        Sometimes {
            target_token: &'static str,
            sections: [&'static str; 3],
            expected_outcome: bool,
        },
        Always {
            target_token: &'static str,
            search: &'static str,
            expected_outcome: bool,
        },
    }

    let mut failures = Vec::new();

    let target_token = "upgrade";

    for (search, expected_outcome) in [
        ("upgrade", true),
        ("upgrade, upgraded", true),
        ("upgraded, upgrade", true),
        ("upgraded, upgrade, upgraded", true),
        ("upgrad", false),
        ("uuupgrade", false),
        ("upgraded", false),
        ("upgradeX", false),
    ] {
        let mut sometimes_succeeds = false;
        let mut new_failures = Vec::new();

        for a in 0..search.len() {
            for b in 0..a {
                let Some((before_a, after_a)) = search.split_at_checked(a) else {
                    continue;
                };

                let Some((between_a_and_b, after_b)) = after_a.split_at_checked(b) else {
                    continue;
                };

                let sections = [before_a, between_a_and_b, after_b];

                if sections.iter().copied().any(str::is_empty) {
                    continue;
                }

                if expected_outcome == display_contains(target_token.as_bytes(), &sections) {
                    sometimes_succeeds = true;
                } else {
                    new_failures.push(Failure::Sometimes {
                        target_token,
                        sections,
                        expected_outcome,
                    })
                }
            }
        }

        if sometimes_succeeds {
            failures.append(&mut new_failures);
        } else {
            failures.push(Failure::Always {
                target_token,
                search,
                expected_outcome,
            });
        }
    }

    if !failures.is_empty() {
        panic!("Test failed: {failures:#?}");
    }
}

#[test]
fn display_contains_whole_and_split_tokens() {
    assert!(display_contains(b"upgrade", &["keep-alive, ", "Upgrade"]));
    assert!(display_contains(b"close", &["clo", "se"]));
    assert!(!display_contains(b"close", &["closed"]));
    assert!(!display_contains(b"close", &[]));
}

#[test]
fn custom_responses_send_connection_close_first() {

    let response = CustomResponse::<&str>::build(StatusCode::new(200))
        .with_header("Content-Type", "text/plain")
        .with_headers(&[("X-A", "1"), ("X-B", "2")])
        .with_body("body");
    assert_eq!(response.status_code.0, 200);
    let names: Vec<(&str, &str)> = response
        .headers
        .iter()
        .map(|(n, v)| (n.as_str(), v.as_str()))
        .collect();
    assert_eq!(
        names,
        vec![("Connection", "close"), ("Content-Type", "text/plain"), ("X-A", "1"), ("X-B", "2")]
    );
    assert_eq!(response.body, "body");
}
