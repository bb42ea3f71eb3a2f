use coyote::reddit::{Children, Data, Datas, RedditJson};

fn post(t: &str, a: &str, u: &str) -> Children {
    Children {
        data: Datas { title: t.to_string(), author_fullname: a.to_string(), url: u.to_string() },
    }
}

fn fields(d: &Datas) -> (String, String, String) {
    (d.title.clone(), d.author_fullname.clone(), d.url.clone())
}

#[test]
fn subreddit_url_is_the_json_listing() {
    assert_eq!(RedditJson::subreddit_url("clojure"), "https://www.reddit.com/r/clojure.json");
    assert_eq!(RedditJson::subreddit_url(""), "https://www.reddit.com/r/.json");
}

#[test]
fn rows_are_all_posts_in_order() {
    let listings = vec![
        RedditJson { data: Data { children: vec![post("t1", "a1", "u1"), post("t2", "a2", "u2")] } },
        RedditJson { data: Data { children: vec![] } },
        RedditJson { data: Data { children: vec![post("t3", "a3", "u3")] } },
    ];
    let rows: Vec<_> = RedditJson::db_rows(&listings).iter().map(fields).collect();
    assert_eq!(
        rows,
        vec![
            ("t1".to_string(), "a1".to_string(), "u1".to_string()),
            ("t2".to_string(), "a2".to_string(), "u2".to_string()),
            ("t3".to_string(), "a3".to_string(), "u3".to_string()),
        ]
    );
}

#[test]
fn no_listings_no_rows() {
    assert!(RedditJson::db_rows(&vec![]).is_empty());
}

#[test]
fn copy_keeps_fields() {
    let d = Datas { title: "x".into(), author_fullname: "y".into(), url: "z".into() };
    assert_eq!(fields(&d.copy()), fields(&d));
}
