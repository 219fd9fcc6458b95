use hnparser::config::{interval_from_config, Config};
use hnparser::database::database_url;
use hnparser::decimal::{parse_u64_str, to_decimal};
use hnparser::highlighter::{surround, Highlighter, HighlighterError, Keyword};
use hnparser::hn_client::{comment_ids_after, item_url, user_url};
use hnparser::non_empty_vec::NonEmptyVec;
use hnparser::poll::select_jobs;
use hnparser::scraper::{chunk_ids, Item, ITEMS_PER_BATCH};
use hnparser::state::{repeat_str, ItemError, Job, Post, State};
use hnparser::state_task::{handle, StateReply, StateRequest};
use hnparser::text::contains;
use hnparser::timeago::{TimeAgo, MAX_TIMESTAMP};
use hnparser::web::{highlight_jobs, preview_jobs, HIGHLIGHT_POST, HIGHLIGHT_PRE, PREVIEW_JOBS};

fn config(poll: u64) -> Config {
    Config {
        port: 3000,
        poll_interval_in_seconds: poll,
        keywords: vec!["rust".to_string()],
        gmail_email: "me@example.com".to_string(),
        gmail_password: "secret".to_string(),
    }
}

fn item(id: u32, text: Option<&str>, time: i64) -> Item {
    Item {
        id,
        by: Some(format!("user{id}")),
        text: text.map(|t| t.to_string()),
        title: None,
        kids: None,
        time,
    }
}

fn highlighter(keywords: &[&str]) -> Highlighter {
    let keywords: Vec<String> = keywords.iter().map(|k| k.to_string()).collect();
    Highlighter::new(&keywords).unwrap()
}

#[test]
fn poll_interval_replaces_zero_by_the_largest_period() {
    assert_eq!(config(0).poll_interval(), u64::MAX);
    assert_eq!(config(60).poll_interval(), 60);
}

#[test]
fn interval_from_config_disables_polling_on_zero() {
    assert_eq!(interval_from_config(&config(0)), None);
    assert_eq!(interval_from_config(&config(30)), Some(30));
}

#[test]
fn non_empty_vec_refuses_empty_and_round_trips() {
    assert!(NonEmptyVec::<u32>::try_new(vec![]).is_none());
    let ne = NonEmptyVec::try_new(vec![3, 1, 2]).unwrap();
    assert_eq!(ne.into_vec(), vec![3, 1, 2]);
    let one = NonEmptyVec::try_new(vec!["x".to_string()]).unwrap();
    assert_eq!(one.into_vec(), vec!["x".to_string()]);
}

#[test]
fn urls_are_built_from_their_parts() {
    assert_eq!(database_url("db.sqlite"), "sqlite:db.sqlite");
    assert_eq!(
        user_url("whoishiring"),
        "https://hacker-news.firebaseio.com/v0/user/whoishiring.json?print=pretty"
    );
    assert_eq!(
        item_url(42069),
        "https://hacker-news.firebaseio.com/v0/item/42069.json?print=pretty"
    );
    assert_eq!(item_url(0), "https://hacker-news.firebaseio.com/v0/item/0.json?print=pretty");
}

#[test]
fn decimal_notation_and_parsing() {
    assert_eq!(to_decimal(0), "0");
    assert_eq!(to_decimal(1298888434), "1298888434");
    assert_eq!(to_decimal(u64::MAX), "18446744073709551615");
    assert_eq!(parse_u64_str("1298888434"), Some(1298888434));
    assert_eq!(parse_u64_str("+7"), Some(7));
    assert_eq!(parse_u64_str("007"), Some(7));
    assert_eq!(parse_u64_str("18446744073709551615"), Some(u64::MAX));
    assert_eq!(parse_u64_str("18446744073709551616"), None);
    assert_eq!(parse_u64_str(""), None);
    assert_eq!(parse_u64_str("+"), None);
    assert_eq!(parse_u64_str("-1"), None);
    assert_eq!(parse_u64_str("12a"), None);
    assert_eq!(parse_u64_str(" 1"), None);
    for n in [0u64, 9, 10, 99, 100, 123456789, u64::MAX] {
        assert_eq!(parse_u64_str(&to_decimal(n)), Some(n));
    }
}

#[test]
fn parsing_agrees_with_std() {
    for s in ["", "+", "-", "-0", "+0", "1", "+12", "12+", "99999999999999999999", "18446744073709551615", "1_0", "٣"] {
        assert_eq!(parse_u64_str(s), s.parse::<u64>().ok(), "input {s:?}");
    }
}

#[test]
fn substring_search() {
    assert!(contains("Ask HN: Who is hiring? (May 2024)", "Ask HN: Who is hiring?"));
    assert!(!contains("Ask HN: Who wants to be hired?", "Ask HN: Who is hiring?"));
    assert!(contains("anything", ""));
    assert!(!contains("", "a"));
    assert!(contains("aaab", "aab"));
}

#[test]
fn keywords_match_whole_words_ignoring_case() {
    let k = Keyword::from("rust");
    assert!(k.is_match("We use Rust."));
    assert!(k.is_match("RUST"));
    assert!(!k.is_match("trusty"));
    assert_eq!(k.replace_all("rust and Rust", "[", "]"), "[rust] and [Rust]");
    assert_eq!(k.replace_all("no match here", "[", "]"), "no match here");
    assert_eq!(surround("x", "<", ">"), "<x>");
}

#[test]
fn highlighter_marks_each_keyword() {
    let h = highlighter(&["rust", "remote"]);
    assert!(h.can_highlight("Remote Rust job"));
    assert!(!h.can_highlight("Go job, on site"));
    let mut text = "Remote Rust job".to_string();
    h.highlight(&mut text, "<b>", "</b>");
    assert_eq!(text, "<b>Remote</b> <b>Rust</b> job");
    let mut untouched = "Go job, on site".to_string();
    h.highlight(&mut untouched, "<b>", "</b>");
    assert_eq!(untouched, "Go job, on site");
}

#[test]
fn highlighter_refuses_invalid_regex() {
    let keywords = vec!["rust".to_string(), "c[".to_string(), "(".to_string()];
    match Highlighter::new(&keywords) {
        Err(HighlighterError::InvalidRegex { keyword }) => assert_eq!(keyword, "c["),
        Ok(_) => panic!("an invalid keyword was accepted"),
    }
    assert!(Highlighter::new(&Vec::new()).is_ok());
}

#[test]
fn empty_highlighter_matches_nothing() {
    let h = Highlighter::new(&Vec::new()).unwrap();
    assert!(!h.can_highlight("Rust"));
}

#[test]
fn items_become_posts_and_jobs() {
    let mut root = item(1, None, 5);
    root.title = Some("Ask HN: Who is hiring? (June)".to_string());
    assert_eq!(Post::from(root).title, "Ask HN: Who is hiring? (June)");
    let untitled = Post::from(item(2, None, 5));
    assert_eq!((untitled.id, untitled.title.as_str()), (2, "???"));
    let d = Post::default();
    assert_eq!((d.id, d.title.as_str()), (0, "???"));
    let mut no_author = item(3, None, 9);
    no_author.by = None;
    let j = Job::from(no_author);
    assert_eq!((j.id, j.text.as_str(), j.by.as_str(), j.time), (3, "", "", 9));
    assert!(matches!(Job::try_from(item(4, None, 1)), Err(ItemError::NoText)));
    let ok = Job::try_from(item(5, Some("text"), 1)).unwrap();
    assert_eq!((ok.id, ok.text.as_str(), ok.by.as_str()), (5, "text", "user5"));
    assert!(matches!(Post::try_from(item(6, None, 1)), Err(ItemError::NoTitle)));
}

#[test]
fn fixtures() {
    let j = Job::fixture();
    assert_eq!(j.id, 12345);
    assert_eq!(j.by, "Username");
    assert_eq!(j.time, 1298888434);
    let line = "Lorem ipsum dolor sit amet, consectetur adipiscing Rust elit, sed RUST do eiusmod tempor incididunt ut labore et rust dolore magna aliqua.";
    assert_eq!(j.text, line.repeat(15));
    let p = Post::fixture();
    assert_eq!((p.id, p.title.as_str()), (12345, "Who's hiring now"));
    assert_eq!(repeat_str("ab", 3), "ababab");
    assert_eq!(repeat_str("ab", 0), "");
}

#[test]
fn state_reports_each_new_job_once() {
    let h = highlighter(&["rust"]);
    let mut state = State::new();
    let mut root = item(100, None, 0);
    root.title = Some("Ask HN: Who is hiring?".to_string());
    let items = vec![
        item(3, Some("Rust, remote"), 30),
        item(1, Some("Java only"), 10),
        item(2, Some("rust backend"), 20),
        item(4, None, 40),
    ];
    let new_jobs = state.set(root, items, &h).unwrap().into_vec();
    let ids: Vec<u32> = new_jobs.iter().map(|j| j.id).collect();
    assert_eq!(ids, vec![3, 2]);

    let mut root2 = item(100, None, 0);
    root2.title = Some("Ask HN: Who is hiring?".to_string());
    let again = vec![item(3, Some("Rust, remote"), 30), item(2, Some("rust backend"), 20)];
    assert!(state.set(root2, again, &h).is_none());

    let (post, jobs) = state.get();
    assert_eq!(post.id, 100);
    let listed: Vec<(u32, i64)> = jobs.iter().map(|j| (j.id, j.time)).collect();
    assert_eq!(listed, vec![(2, 20), (3, 30)]);
}

#[test]
fn state_keeps_the_last_version_of_a_job() {
    let h = highlighter(&["rust"]);
    let mut state = State::new();
    let items = vec![
        item(7, Some("rust v1"), 5),
        item(7, Some("rust v2"), 6),
        item(8, Some("rust"), 1),
    ];
    let new_jobs = state.set(item(1, None, 0), items, &h).unwrap().into_vec();
    let reported: Vec<(u32, String)> = new_jobs.iter().map(|j| (j.id, j.text.clone())).collect();
    assert_eq!(reported, vec![(7, "rust v1".to_string()), (8, "rust".to_string())]);
    let (post, jobs) = state.get();
    assert_eq!(post.title, "???");
    let listed: Vec<(u32, String)> = jobs.iter().map(|j| (j.id, j.text.clone())).collect();
    assert_eq!(listed, vec![(8, "rust".to_string()), (7, "rust v2".to_string())]);
}

#[test]
fn empty_state_lists_nothing() {
    let state = State::new();
    let (post, jobs) = state.get();
    assert_eq!((post.id, post.title.as_str()), (0, "???"));
    assert!(jobs.is_empty());
}

#[test]
fn state_task_steps() {
    let h = highlighter(&["rust"]);
    let mut state = State::new();
    let update = StateRequest::Update { root: item(9, None, 0), items: vec![item(1, Some("rust"), 1)] };
    match handle(&mut state, update, &h) {
        StateReply::NewJobs(jobs) => assert_eq!(jobs.into_vec().len(), 1),
        _ => panic!("expected new jobs"),
    }
    let again = StateRequest::Update { root: item(9, None, 0), items: vec![item(1, Some("rust"), 1)] };
    assert!(matches!(handle(&mut state, again, &h), StateReply::Nothing));
    match handle(&mut state, StateRequest::Query, &h) {
        StateReply::Snapshot(post, jobs) => {
            assert_eq!(post.id, 9);
            assert_eq!(jobs.len(), 1);
        }
        _ => panic!("expected a snapshot"),
    }
}

#[test]
fn time_elapsed_in_words() {
    assert_eq!(TimeAgo::elapsed(100, 160, 5), (60, 5));
    assert_eq!(TimeAgo::elapsed(200, 160, 5), (0, 0));
    assert_eq!(TimeAgo::render(1000, 1000 + 3600 + 60 + 3, 0), "1 hour 1 minute 3 seconds ago");
    assert_eq!(TimeAgo::render(1000, 1000 + 3600, 0), "1 hour ago");
    assert_eq!(TimeAgo::render(5000, 1000, 0), "now");
    assert_eq!(TimeAgo::evaluate("1000", 1000 + 86400, 0), "1 day ago");
    assert_eq!(TimeAgo::parse_timestamp("12x"), None);
    assert_eq!(TimeAgo::since(-5, 60, 0), "1 minute ago");
    assert_eq!(TimeAgo::since(30, 60, 0), "30 seconds ago");
}

#[test]
fn hiring_posts_and_batches() {
    let mut post = item(1, None, 0);
    post.title = Some("Ask HN: Who is hiring? (March 2024)".to_string());
    assert!(post.is_hiring_post());
    let mut other = item(2, None, 0);
    other.title = Some("Ask HN: Who wants to be hired? (March 2024)".to_string());
    assert!(!other.is_hiring_post());
    assert!(!item(3, None, 0).is_hiring_post());

    let mut parent = item(4, None, 0);
    assert!(parent.kid_ids().is_empty());
    parent.kids = Some(vec![5, 6]);
    assert_eq!(parent.kid_ids(), vec![5, 6]);

    let ids: Vec<u32> = (0..45).collect();
    let chunks = chunk_ids(&ids, ITEMS_PER_BATCH);
    let sizes: Vec<usize> = chunks.iter().map(|c| c.len()).collect();
    assert_eq!(sizes, vec![20, 20, 5]);
    assert_eq!(chunks.concat(), ids);
    assert!(chunk_ids(&Vec::new(), 3).is_empty());
}

#[test]
fn comment_ids_above_a_job_in_order() {
    assert_eq!(comment_ids_after(&vec![9, 2, 7, 4, 7], 3), vec![4, 7, 7, 9]);
    assert!(comment_ids_after(&vec![1, 2], 5).is_empty());
}

#[test]
fn web_page_jobs_and_preview() {
    let h = highlighter(&["rust"]);
    let jobs = vec![Job::fixture(), Job { id: 1, text: "Go".to_string(), by: "x".to_string(), time: 3 }];
    let shown = highlight_jobs(jobs, &h);
    assert_eq!(shown.len(), 2);
    assert!(shown[0].text.starts_with(&format!("Lorem ipsum dolor sit amet, consectetur adipiscing {HIGHLIGHT_PRE}Rust{HIGHLIGHT_POST} elit")));
    assert_eq!(shown[1].text, "Go");
    let preview = preview_jobs();
    assert_eq!(preview.len(), PREVIEW_JOBS);
    assert!(preview.iter().all(|j| j.id == 12345 && j.time == 1298888434));
}

#[test]
fn poll_selects_interesting_and_new_jobs() {
    let h = highlighter(&["rust"]);
    let items = vec![
        item(10, Some("rust"), 1),
        item(11, None, 2),
        item(12, Some("java"), 3),
        item(13, Some("Rust"), 4),
    ];
    let (all, fresh) = select_jobs(items, &h, 10);
    assert_eq!(all.iter().map(|j| j.id).collect::<Vec<_>>(), vec![10, 13]);
    assert_eq!(fresh.iter().map(|j| j.id).collect::<Vec<_>>(), vec![13]);
}

#[test]
fn empty_markup_leaves_text_unchanged() {
    let h = highlighter(&["rust", "remote"]);
    let mut text = "Remote Rust job, rust everywhere".to_string();
    h.highlight(&mut text, "", "");
    assert_eq!(text, "Remote Rust job, rust everywhere");
    assert_eq!(Keyword::from("rust").replace_all("Rust rust", "", ""), "Rust rust");
}

#[test]
fn keyword_checked_construction() {
    assert!(Keyword::try_from("rust").unwrap().is_match("RUST"));
    assert!(Keyword::try_from("(").is_none());
}

#[test]
fn latest_renderable_timestamp_is_the_last_representable_date() {
    assert_eq!(chrono::DateTime::<chrono::Utc>::MAX_UTC.timestamp(), MAX_TIMESTAMP as i64);
    assert_eq!(TimeAgo::render(MAX_TIMESTAMP, 1000, 0), "now");
}

/// The log form of a configuration, written with std's formatting helpers.
struct LoggedConfig<'a>(&'a Config);

impl std::fmt::Debug for LoggedConfig<'_> {
    fn fmt(&self, f: &mut std::fmt::Formatter<'_>) -> std::fmt::Result {
        f.debug_struct("Config")
            .field("port", &self.0.port)
            .field("poll_interval_in_seconds", &self.0.poll_interval_in_seconds)
            .field("keywords", &self.0.keywords)
            .field("gmail_email", &self.0.gmail_email)
            .field("gmail_password", &"******")
            .finish()
    }
}

#[test]
fn description_hides_the_password() {
    let mut c = config(60);
    c.keywords = vec!["rust".to_string(), "say \"hi\"\n".to_string(), "c\\d".to_string()];
    assert_eq!(c.describe(), format!("{:?}", LoggedConfig(&c)));
    assert!(!c.describe().contains("secret"));
    let mut other = config(60);
    other.keywords = c.keywords.clone();
    other.gmail_password = "another".to_string();
    assert_eq!(other.describe(), c.describe());
    let mut empty = config(0);
    empty.keywords = Vec::new();
    assert_eq!(empty.describe(), format!("{:?}", LoggedConfig(&empty)));
    assert_eq!(
        empty.describe(),
        "Config { port: 3000, poll_interval_in_seconds: 0, keywords: [], gmail_email: \"me@example.com\", gmail_password: \"******\" }"
    );
}
