use marks::args::Args;
use marks::datetime::{org_date_time, OrgDatePlan, Timestamp};
use marks::header::{OrgPriority, OrgTodo};
use marks::marks::Marks;
use marks::parser::{check_chr, parse_around, parse_plain, parse_prefixed, parse_whitespace, CharCursor, GentleIterator};
use marks::query::Query;
use marks::result::SearchResult;
use marks::searcher::{new_searcher, DocType};

fn args_with(query: &str) -> Args {
    Args {
        debug: false,
        count: None,
        todo: vec![],
        priority: vec![],
        priority_lt: None,
        priority_gt: None,
        scheduled_at: None,
        scheduled_before: None,
        scheduled_after: None,
        tagged: vec![],
        prop: vec![],
        only_headers: false,
        org_extension: vec!["org".to_string()],
        md_extension: vec!["md".to_string()],
        no_org: false,
        no_markdown: false,
        search_filename: false,
        no_color: true,
        null: false,
        no_headers: false,
        header_seperator: "/".to_string(),
        blacklist_folder: vec![],
        query: Query::new(query).unwrap(),
        path: ".".to_string(),
    }
}

fn lines(text: &str) -> Vec<String> {
    text.split('\n').map(|s| s.to_string()).collect()
}

fn run(args: &Args, doc: DocType, text: &str) -> Vec<SearchResult> {
    let mut s = new_searcher(args, "notes.org", "/tmp/notes.org", doc, lines(text));
    s.search()
}

#[test]
fn empty_query_matches_every_line() {
    let args = args_with("");
    let r = run(&args, DocType::OrgMode, "first\nsecond\n* Head\nbody");
    assert_eq!(r.len(), 4);
    assert!(r.iter().all(|x| x.score == 0));
    assert_eq!(r[2].is_header, true);
    assert_eq!(r[3].headers, vec!["Head".to_string()]);
    assert_eq!(r[3].line, 4);
}

#[test]
fn depth_jump_keeps_two_headings() {
    let args = args_with("");
    let r = run(&args, DocType::OrgMode, "* One\n*** Three\n** Two\nline");
    let last = r.last().unwrap();
    assert_eq!(last.content, "line");
    assert_eq!(last.headers, vec!["One".to_string(), "Two".to_string()]);
    assert_eq!(last.header_line, Some(2));
}

#[test]
fn tags_are_inherited_from_ancestors() {
    let mut args = args_with("");
    args.tagged = vec!["work".to_string()];
    let text = "#+FILETAGS: :work:\ntop line\n* Projects :work:\n** Sub\n*** Deep\ndeep line\n* Other\nother line";
    let r = run(&args, DocType::OrgMode, text);
    let contents: Vec<&str> = r.iter().map(|x| x.content.as_str()).collect();
    assert!(contents.contains(&"deep line"));
    assert!(!contents.contains(&"top line"));
    assert!(!contents.contains(&"#+FILETAGS: :work:"));
    assert!(!contents.contains(&"other line"));
}

#[test]
fn deadline_and_properties_are_attached() {
    let mut args = args_with("");
    args.prop = vec![("RATING".to_string(), "10/10".to_string())];
    let text = "* Book\nDEADLINE: <2021-08-28 Sat>\n:PROPERTIES:\n:RATING: 10/10\n:END:\nnice";
    let r = run(&args, DocType::OrgMode, text);
    let contents: Vec<&str> = r.iter().map(|x| x.content.as_str()).collect();
    assert_eq!(contents, vec!["* Book", "nice"]);
    assert_eq!(r[1].line, 6);
}

#[test]
fn schedule_filter_compares_days() {
    let mut args = args_with("");
    args.scheduled_at = Some(marks::args::parse_org_scheduled("2021-08-28").unwrap());
    let text = "* A\nSCHEDULED: <2021-08-28 Sat 10:00>\nin a\n* B\nSCHEDULED: <2021-08-29 Sun>\nin b";
    let r = run(&args, DocType::OrgMode, text);
    let contents: Vec<&str> = r.iter().map(|x| x.content.as_str()).collect();
    assert_eq!(contents, vec!["* A", "in a"]);
}

#[test]
fn todo_and_priority_filters() {
    let mut args = args_with("");
    args.todo = vec![OrgTodo::TODO];
    let text = "* TODO [#A] first\nx\n* DONE [#B] second\ny";
    let r = run(&args, DocType::OrgMode, text);
    assert_eq!(r.len(), 2);
    assert_eq!(r[1].content, "x");

    let mut args = args_with("");
    args.priority_lt = Some(OrgPriority("A".into()));
    let r = run(&args, DocType::OrgMode, text);
    let contents: Vec<&str> = r.iter().map(|x| x.content.as_str()).collect();
    assert_eq!(contents, vec!["* DONE [#B] second", "y"]);

    let mut args = args_with("");
    args.priority = vec![OrgPriority("A".into())];
    let r = run(&args, DocType::OrgMode, text);
    assert_eq!(r.len(), 2);
    assert_eq!(r[1].content, "x");
}

#[test]
fn literal_query_parts() {
    let args = args_with("\"apple\" -pear `b.n`");
    let text = "apple banana\napple pear banana\nbanana only\napple bun";
    let r = run(&args, DocType::Markdown, text);
    let contents: Vec<&str> = r.iter().map(|x| x.content.as_str()).collect();
    assert_eq!(contents, vec!["apple banana", "apple bun"]);
}

#[test]
fn fuzzy_words_score_lines() {
    let args = args_with("bnn");
    let r = run(&args, DocType::Markdown, "banana\nxyz");
    assert_eq!(r.len(), 1);
    assert_eq!(r[0].content, "banana");
    assert!(r[0].score > 0);
}

#[test]
fn markdown_headings_and_file_names() {
    let mut args = args_with("\"notes\"");
    args.search_filename = true;
    let r = run(&args, DocType::Markdown, "# Title\ntext");
    assert_eq!(r.len(), 2);
    assert_eq!(r[1].headers, vec!["Title".to_string()]);
}

#[test]
fn result_line_rendering() {
    let r = SearchResult {
        score: 3,
        line: 120,
        file_path: "a.org".to_string(),
        headers: vec!["H1".to_string(), "H2".to_string()],
        header_line: Some(0),
        content: "body".to_string(),
        is_header: false,
    };
    assert_eq!(r.to_line(false, false, "/"), "a.org:120:H1/H2:body");
    assert_eq!(r.to_line(true, true, "/"), "a.org\u{0}120:body");
}

#[test]
fn marks_file_choice() {
    let args = args_with("");
    let m = Marks::new(&args);
    assert!(m.is_searched_file(Some("org")));
    assert!(m.is_searched_file(Some("md")));
    assert!(!m.is_searched_file(Some("txt")));
    assert!(!m.is_searched_file(None));
    assert_eq!(m.get_doc_type(Some("md")), DocType::Markdown);
    assert_eq!(m.get_doc_type(Some("org")), DocType::OrgMode);
    assert!(!m.is_file_blacklisted("src"));
    assert!(marks::utils::is_hidden(".git"));
    assert!(!marks::utils::is_hidden("git"));
    let r = m.search_file("x.md", "/x.md", Some("md"), vec!["# T".to_string(), "body".to_string()]);
    assert_eq!(r[1].headers, vec!["T".to_string()]);
}

#[test]
fn timestamps() {
    let d = org_date_time("DEADLINE: [2021-08-28 Sat 10:15-11:30 +1w]").unwrap();
    assert!(!d.is_active);
    assert_eq!(d.date_plan, OrgDatePlan::Deadline);
    assert_eq!(d.date_start, Timestamp { year: 2021, month: 8, day: 28, hour: 10, minute: 15, second: 0 });
    assert_eq!(d.date_end, Some(Timestamp { year: 2021, month: 8, day: 28, hour: 11, minute: 30, second: 0 }));
    assert_eq!(d.invertal, Some("+1w".to_string()));

    let p = org_date_time("<2020-02-29>").unwrap();
    assert_eq!(p.date_plan, OrgDatePlan::Plain);
    assert!(org_date_time("<2021-02-29>").is_err());
    assert!(org_date_time("<2021-8-28>").is_err());
    assert!(org_date_time("<2021-08-28 Sat").is_err());
    assert!(org_date_time("<2021-08-28 Sat]").is_err());
    assert!(org_date_time("<2021-08-28 25:00>").is_err());
    assert!(org_date_time("<2021-08-28 1:00>").is_err());
}

#[test]
fn compare_with_looks_at_other_time() {
    let a = org_date_time("SCHEDULED: <2021-08-28 Sat 10:00>").unwrap();
    let day = org_date_time("SCHEDULED: <2021-08-28>").unwrap();
    let other_time = org_date_time("SCHEDULED: <2021-08-28 11:00>").unwrap();
    let eq_t = |x: &Timestamp, y: &Timestamp| x == y;
    let eq_d = |x: &marks::datetime::CalendarDate, y: &marks::datetime::CalendarDate| x == y;
    assert!(a.compare_with(&day, eq_t, eq_d));
    assert!(!a.compare_with(&other_time, eq_t, eq_d));
    let deadline = org_date_time("DEADLINE: <2021-08-28>").unwrap();
    assert!(!a.compare_with(&deadline, eq_t, eq_d));
}

#[test]
fn query_errors() {
    assert!(matches!(Query::new("\"open"), Err(marks::query::QueryError::Unterminated)));
    assert!(matches!(Query::new("`(`"), Err(marks::query::QueryError::InvalidRegex(_))));
    let q = Query::new("  a   - \"b c\"").unwrap();
    assert_eq!(q.rest, vec!["a".to_string(), "-".to_string()]);
    assert_eq!(q.musts, vec!["b c".to_string()]);
    assert!(q.matches("xx b c"));
    assert!(!q.matches("b  c"));
}

#[test]
fn option_parsers() {
    assert_eq!(
        marks::args::parse_props("KEY=va=lue"),
        Ok(("KEY".to_string(), "va=lue".to_string()))
    );
    assert_eq!(
        marks::args::parse_props("novalue"),
        Err("invalid PROP=value: no `=` found in `novalue`".to_string())
    );
    assert_eq!(marks::args::parse_todos("todo"), Ok(OrgTodo::TODO));
    assert_eq!(marks::args::parse_todos("Done"), Ok(OrgTodo::DONE));
    assert_eq!(marks::args::parse_todos("wait"), Ok(OrgTodo::Other("WAIT".into())));
    assert_eq!(marks::args::parse_priority("B"), Ok(OrgPriority("B".into())));
    let s = marks::args::parse_org_scheduled("2021-08-28 10:30").unwrap();
    assert_eq!(s.date_plan, OrgDatePlan::Scheduled);
    assert_eq!(s.date_start.hour, 10);
    assert!(marks::args::parse_org_scheduled("tomorrow").is_err());
}

#[test]
fn priority_edge_cases() {
    assert!(OrgPriority("99999999999".into()) < OrgPriority("1".into()));
    assert!(OrgPriority("B".into()) < OrgPriority("A".into()));
    assert!(OrgPriority("a1".into()) < OrgPriority("b1".into()));
}

#[test]
fn header_line_parts() {
    let h = marks::parsers::org_header("* WAIT  title with spaces   :a1:b:").unwrap();
    assert_eq!(h.todo, Some(OrgTodo::Other("WAIT".into())));
    assert_eq!(h.content, "title with spaces");
    assert_eq!(h.tags, vec!["a1".to_string(), "b".to_string()]);
    assert!(marks::parsers::org_header("*no space").is_none());
    assert!(marks::parsers::org_header("# markdown").is_none());
    assert_eq!(marks::parsers::org_header_prefix("*** x"), Some(3));
    assert_eq!(marks::parsers::org_tags("Title a:b:"), (vec!["b".to_string()], "Title a".to_string()));
}

#[test]
fn property_block_without_end_keeps_what_was_read() {
    assert_eq!(
        marks::parsers::org_properties(":PROPERTIES:\n:A: 1\nbroken\n:B: 2"),
        Some(vec![("A".to_string(), "1".to_string())])
    );
    assert_eq!(
        marks::parsers::org_properties(":PROPERTIES:\n:A: 1\n:A: 2\n:END:"),
        Some(vec![("A".to_string(), "2".to_string())])
    );
    assert_eq!(marks::parsers::org_properties("nothing"), None);
}

#[test]
fn char_cursor_readers() {
    let mut c = CharCursor::new("\"ab\" -x y");
    assert!(check_chr(&c, '"'));
    assert_eq!(parse_around(&mut c, '"', '"'), Some("ab".to_string()));
    assert_eq!(parse_prefixed(&mut c, '-'), Some("x".to_string()));
    assert!(!parse_whitespace(&mut c));
    assert_eq!(parse_plain(&mut c), Some("y".to_string()));
    assert_eq!(parse_plain(&mut c), None);
    let mut d = CharCursor::new("aab");
    assert_eq!(d.take_until(|ch| ch == 'a'), vec!['a', 'a']);
    assert!(marks::parser::check(&d, |ch| ch == 'b'));
}

#[test]
fn timestamp_round_trip() {
    for text in [
        "DEADLINE: <2021-08-28 Sat>",
        "SCHEDULED: [2020-02-29 Sat 09:05-10:30 +1w]",
        "<1999-12-31 23:59 .+2d>",
        "[2021-01-01]",
        "SCHEDULED:   <2021-08-28 Sat abc>",
    ] {
        let a = org_date_time(text).unwrap();
        let written = a.to_org_string();
        let b = org_date_time(&written).unwrap();
        assert_eq!(a.is_active, b.is_active);
        assert_eq!(a.date_plan, b.date_plan);
        assert_eq!(a.date_start, b.date_start);
        assert_eq!(a.date_end, b.date_end);
        assert_eq!(a.invertal, b.invertal);
    }
    let d = org_date_time("SCHEDULED: [2020-02-29 Sat 09:05-10:30 +1w]").unwrap();
    assert_eq!(d.to_org_string(), "SCHEDULED: [2020-02-29 09:05-10:30 +1w]");
}
