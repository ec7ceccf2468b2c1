use marks::datetime::{OrgDatePlan, OrgDateTime, Timestamp};
use marks::extensions::StartsWithIgnoreCase;
use marks::header::{OrgHeader, OrgPriority, OrgTodo};
use marks::parsers::{org_header, org_properties, org_property, org_tags, org_todo};
use marks::query::{Pattern, Query};

#[test]
fn test_starts_with_i() {
    assert!("HuEhuUehEheUeIiIAAAA".starts_with_i("huehuueheheueiii"));
    assert!(!"xdxdxd".starts_with_i("huehuueheheueiii"));
}

#[test]
fn test_priority_ordering() {
    assert!(OrgPriority("A".into()) > OrgPriority("B".into()));
    assert!(OrgPriority("3".into()) > OrgPriority("2".into()));
    assert!(OrgPriority("15".into()) > OrgPriority("13".into()));
    assert!(OrgPriority("A".into()) == OrgPriority("A".into()));
}

#[test]
fn test_org_tags() {
    assert_eq!(
        org_tags(":test:tag:tag3:"),
        (vec!["test".to_string(), "tag".to_string(), "tag3".to_string()], "".to_string())
    );
}

#[test]
fn test_org_property() {
    assert_eq!(
        org_property(":TEST: value"),
        Some(("TEST".to_string(), "value".to_string()))
    );
    assert_eq!(
        org_property(":another:   value  "),
        Some(("another".to_string(), "value".to_string()))
    );
}

#[test]
fn test_org_properties() {
    assert_eq!(
        org_properties(":PROPERTIES:\n:TEST: value\n:TEST2: another value\n:END:"),
        Some(vec![
            ("TEST".to_string(), "value".to_string()),
            ("TEST2".to_string(), "another value".to_string())
        ])
    );
    assert_eq!(
        org_properties(":PROPERTIES:\n:RATING: 10/10\n:END:"),
        Some(vec![("RATING".to_string(), "10/10".to_string())])
    );
    assert_eq!(org_properties(":PROPERTIES:\n:END:"), Some(vec![]));
}

#[test]
fn test_org_todo() {
    assert_eq!(
        org_todo("TODO The Ego and Its Own"),
        ((Some(OrgTodo::TODO), None), "The Ego and Its Own".to_string())
    );
    assert_eq!(
        org_todo("DONE [#B] The German Ideology"),
        (
            (Some(OrgTodo::DONE), Some(OrgPriority("B".into()))),
            "The German Ideology".to_string()
        )
    );
    assert_eq!(
        org_todo("PROG [#33] hehe"),
        (
            (Some(OrgTodo::Other("PROG".into())), Some(OrgPriority("33".into()))),
            "hehe".to_string()
        )
    );
}

fn deadline_2021_08_28() -> OrgDateTime {
    OrgDateTime {
        is_active: true,
        date_plan: OrgDatePlan::Deadline,
        date_start: Timestamp { year: 2021, month: 8, day: 28, hour: 0, minute: 0, second: 0 },
        date_end: None,
        invertal: None,
    }
}

#[test]
fn test_org_header() {
    assert_eq!(
        org_header("** TODO [#B] The Ego and Its Own").unwrap(),
        OrgHeader {
            line: 0,
            depth: 2,
            content: "The Ego and Its Own".into(),
            tags: vec![],
            properties: vec![],
            datetime: None,
            todo: Some(OrgTodo::TODO),
            priority: Some(OrgPriority("B".into())),
        }
    );

    let with_deadline = "** TODO [#B] The Ego and Its Own :test:tags:\nDEADLINE: <2021-08-28 Sat>\n";

    assert_eq!(
        org_header(with_deadline).unwrap(),
        OrgHeader {
            line: 0,
            depth: 2,
            content: "The Ego and Its Own".into(),
            tags: vec!["test".into(), "tags".into()],
            properties: vec![],
            datetime: Some(deadline_2021_08_28()),
            todo: Some(OrgTodo::TODO),
            priority: Some(OrgPriority("B".into())),
        }
    );

    let with_deadline_and_props = "** TODO The Ego and Its Own :test:tags:\nDEADLINE: <2021-08-28 Sat>\n:PROPERTIES:\n:RATING: 10/10\n:END:\n";

    assert_eq!(
        org_header(with_deadline_and_props).unwrap(),
        OrgHeader {
            line: 0,
            depth: 2,
            content: "The Ego and Its Own".into(),
            tags: vec!["test".into(), "tags".into()],
            properties: vec![("RATING".into(), "10/10".into())],
            datetime: Some(deadline_2021_08_28()),
            todo: Some(OrgTodo::TODO),
            priority: None,
        }
    );

    let with_props_and_tags = "** [#B] The Ego and Its Own :test:tags:\n:PROPERTIES:\n:RATING: 10/10\n:END:\n";

    assert_eq!(
        org_header(with_props_and_tags).unwrap(),
        OrgHeader {
            line: 0,
            depth: 2,
            content: "The Ego and Its Own".into(),
            tags: vec!["test".into(), "tags".into()],
            properties: vec![("RATING".into(), "10/10".into())],
            datetime: None,
            todo: None,
            priority: Some(OrgPriority("B".into())),
        }
    );

    let with_props = "** The Ego and Its Own\n:PROPERTIES:\n:RATING: 10/10\n:END:\n";

    assert_eq!(
        org_header(with_props).unwrap(),
        OrgHeader {
            line: 0,
            depth: 2,
            content: "The Ego and Its Own".into(),
            tags: vec![],
            properties: vec![("RATING".into(), "10/10".into())],
            datetime: None,
            todo: None,
            priority: None,
        }
    );

    let with_content = "** TODO [#B] The Ego and Its Own :test:tags:\nsome content\n";

    assert_eq!(
        org_header(with_content).unwrap(),
        OrgHeader {
            line: 0,
            depth: 2,
            content: "The Ego and Its Own".into(),
            tags: vec!["test".into(), "tags".into()],
            properties: vec![],
            datetime: None,
            todo: Some(OrgTodo::TODO),
            priority: Some(OrgPriority("B".into())),
        }
    );
}

#[test]
fn test_parse_query() {
    assert_eq!(Query::new("").unwrap(), Query::default());
    assert_eq!(
        Query::new("-badword \"stuff\" \"another stuff\" hehe `a regex`").unwrap(),
        Query {
            full: "-badword \"stuff\" \"another stuff\" hehe `a regex`".into(),
            musts: vec!["stuff".into(), "another stuff".into()],
            nones: vec!["badword".into()],
            rest: vec!["hehe".into()],
            regexes: vec![Pattern::compile("a regex").unwrap()],
        }
    );
}
