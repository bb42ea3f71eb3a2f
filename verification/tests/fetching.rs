use coyote::crawl::{
    page_file_path, ErrorUrlId, FetchAction, FetchOutcome, FetchRequest, UrlId, UrlParseError,
};
use coyote::decimal::parse_i32;

fn pairs(plan: &[FetchRequest]) -> Vec<(String, String)> {
    plan.iter().map(|q| (q.id.clone(), q.url.clone())).collect()
}

#[test]
fn fetch_plan_skips_relative_urls() {
    let links = vec![
        UrlId { id: 1, url: "https://example.com/a".into() },
        UrlId { id: 2, url: "relative/path".into() },
        UrlId { id: -3, url: "http://[::1]:99999/".into() },
        UrlId { id: 40, url: "/also/relative".into() },
        UrlId { id: 5, url: "mailto:someone@example.com".into() },
    ];
    assert_eq!(
        pairs(&UrlId::fetch_plan(&links)),
        vec![
            ("1".to_string(), "https://example.com/a".to_string()),
            ("-3".to_string(), "http://[::1]:99999/".to_string()),
            ("5".to_string(), "mailto:someone@example.com".to_string()),
        ]
    );
}

#[test]
fn retry_plan_skips_relative_urls() {
    let errors = vec![
        ErrorUrlId { id: 9, url: "../up".into() },
        ErrorUrlId { id: 10, url: "https://www.reddit.com/r/rust/".into() },
    ];
    assert_eq!(
        pairs(&ErrorUrlId::retry_plan(&errors)),
        vec![("10".to_string(), "https://www.reddit.com/r/rust/".to_string())]
    );
}

#[test]
fn empty_plans() {
    assert!(UrlId::fetch_plan(&vec![]).is_empty());
    assert!(ErrorUrlId::retry_plan(&vec![]).is_empty());
}

#[test]
fn request_for_a_parsed_link() {
    let url = "x".to_string();
    assert!(FetchRequest::for_link(1, &url, &Err(UrlParseError::RelativeUrlWithoutBase)).is_none());
    let q = FetchRequest::for_link(12, &url, &Err(UrlParseError::EmptyHost)).unwrap();
    assert_eq!((q.id, q.url), ("12".to_string(), "x".to_string()));
    let q = FetchRequest::for_link(-7, &url, &Ok("x/".to_string())).unwrap();
    assert_eq!((q.id, q.url), ("-7".to_string(), "x".to_string()));
}

#[test]
fn page_is_saved_under_its_id() {
    assert_eq!(page_file_path("12"), "12/12.html");
    assert_eq!(page_file_path("-3"), "-3/-3.html");
}

#[test]
fn fetched_page_is_saved() {
    let mut errors = vec![];
    match ErrorUrlId::handle_outcome(&"17".to_string(), "u".into(), FetchOutcome::Fetched, &mut errors) {
        FetchAction::SavePage { dir, file } => {
            assert_eq!(dir, "17");
            assert_eq!(file, "17/17.html");
        }
        _ => panic!("expected a page to save"),
    }
    assert!(errors.is_empty());
}

#[test]
fn timeout_is_recorded() {
    let mut errors = vec![ErrorUrlId { id: 1, url: "a".into() }];
    let action =
        ErrorUrlId::handle_outcome(&"-25".to_string(), "b".into(), FetchOutcome::TimedOut, &mut errors);
    assert!(matches!(action, FetchAction::RecordedTimeout));
    let got: Vec<(i32, String)> = errors.iter().map(|e| (e.id, e.url.clone())).collect();
    assert_eq!(got, vec![(1, "a".to_string()), (-25, "b".to_string())]);
}

#[test]
fn other_failure_is_only_reported() {
    let mut errors = vec![];
    let action =
        ErrorUrlId::handle_outcome(&"3".to_string(), "c".into(), FetchOutcome::Failed, &mut errors);
    assert!(matches!(action, FetchAction::ReportFailure));
    assert!(errors.is_empty());
}

#[test]
fn timed_out_request_is_recorded_as_its_link() {
    let links = vec![UrlId { id: 2024, url: "https://example.org/".into() }];
    let plan = UrlId::fetch_plan(&links);
    let mut errors = vec![];
    for q in &plan {
        assert!(parse_i32(&q.id).is_some());
        ErrorUrlId::handle_outcome(&q.id, q.url.clone(), FetchOutcome::TimedOut, &mut errors);
    }
    assert_eq!(errors.len(), 1);
    assert_eq!((errors[0].id, errors[0].url.as_str()), (2024, "https://example.org/"));
    assert_eq!(pairs(&ErrorUrlId::retry_plan(&errors)), pairs(&plan));
}
