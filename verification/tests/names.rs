use timings::compare_client_and_project_names;
use timings::parse_desktop_name;

#[test]
fn parse_splits_on_the_first_colon_and_trims() {
    assert_eq!(
        parse_desktop_name("Acme: Website"),
        (Some("Acme".to_string()), Some("Website".to_string()))
    );
    // Whitespace on either side of both parts is removed; this would
    // fail if trimming handed its argument back unchanged.
    assert_eq!(
        parse_desktop_name("  Acme  :  Website  "),
        (Some("Acme".to_string()), Some("Website".to_string()))
    );
    // Only the first colon splits.
    assert_eq!(
        parse_desktop_name("a:b:c"),
        (Some("a".to_string()), Some("b:c".to_string()))
    );
}

#[test]
fn parse_without_a_colon_gives_only_a_client() {
    assert_eq!(parse_desktop_name("JustAClient"), (Some("JustAClient".to_string()), None));
    assert_eq!(parse_desktop_name("  padded "), (Some("padded".to_string()), None));
    assert_eq!(parse_desktop_name(""), (Some("".to_string()), None));
}

#[test]
fn parse_with_colon_and_empty_parts() {
    assert_eq!(parse_desktop_name(":"), (Some("".to_string()), Some("".to_string())));
    assert_eq!(parse_desktop_name("Acme:"), (Some("Acme".to_string()), Some("".to_string())));
}

#[test]
fn compare_names_matches_trimmed_pairs() {
    let client = Some("Acme".to_string());
    let project = Some("Website".to_string());
    assert!(compare_client_and_project_names("Acme", "Website", &client, &project));
    assert!(compare_client_and_project_names(" Acme ", "Website  ", &client, &project));
    assert!(!compare_client_and_project_names("Other", "Website", &client, &project));
}

#[test]
fn compare_names_missing_parts_match_only_empty_fields() {
    assert!(compare_client_and_project_names("", "", &None, &None));
    assert!(!compare_client_and_project_names("Acme", "", &None, &None));
    assert!(!compare_client_and_project_names("", "x", &Some("".to_string()), &None));
}
