use cewl::email::extract_emails_from_text;

#[test]
fn emails_found_per_line_in_order() {
    let text = "Write to Jane.Doe+x@Example.co.uk or bob@test.org.\nnot an email: a@b, c@d.e1\nzed@mail.example.com";
    assert_eq!(
        extract_emails_from_text(text),
        vec![
            "Jane.Doe+x@Example.co.uk".to_string(),
            "bob@test.org".to_string(),
            "zed@mail.example.com".to_string(),
        ]
    );
}

#[test]
fn emails_need_word_boundaries() {
    // 'é' is a word character, so no address starts at the 'a'
    assert!(extract_emails_from_text("xéa@b.cd").is_empty());
    assert_eq!(extract_emails_from_text("(me@site.io)"), vec!["me@site.io".to_string()]);
    assert!(extract_emails_from_text("no at sign here").is_empty());
}
