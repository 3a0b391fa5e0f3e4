use wenku2epub::client::{
    decode_page, default_user_agents, html_headers, image_headers, origin_for, pick_user_agent,
    retry_delay, Attempts, StatusStep, MAX_ATTEMPTS,
};
use wenku2epub::error::ErrorKind;

const URL: &str = "https://www.wenku8.net/book/1.htm";

#[test]
fn default_user_agents_are_five() {
    let uas = default_user_agents();
    assert_eq!(uas.len(), 5);
    assert!(uas[0].contains("Chrome/131.0.0.0"));
    assert!(uas[4].contains("iPhone"));
}

#[test]
fn user_agents_rotate() {
    let uas = default_user_agents();
    assert_eq!(pick_user_agent(0), uas[0]);
    assert_eq!(pick_user_agent(3), pick_user_agent(8));
    assert_eq!(pick_user_agent(6), uas[1]);
    let five: Vec<String> = (10..15).map(pick_user_agent).collect();
    for i in 0..5 {
        for j in (i + 1)..5 {
            assert_ne!(five[i], five[j]);
        }
    }
}

#[test]
fn origin_for_parses_or_falls_back_to_slash() {
    assert_eq!(origin_for(URL), "https://www.wenku8.net/");
    assert_eq!(origin_for("http://img.wenku8.com:8080/a/b.jpg"), "http://img.wenku8.com:8080/");
    assert_eq!(origin_for("not a url"), "/");
}

#[test]
fn page_headers_exact() {
    let h = html_headers(URL, 1);
    assert_eq!(h.len(), 11);
    assert_eq!(h[0], ("user-agent".to_string(), default_user_agents()[1].clone()));
    assert_eq!(h[1], ("referer".to_string(), "https://www.wenku8.net/".to_string()));
    assert_eq!(h[5], ("DNT".to_string(), "1".to_string()));
    assert_eq!(h[10], ("Sec-Fetch-User".to_string(), "?1".to_string()));
    let i = image_headers("http://img.wenku8.com/a.jpg", 2);
    assert_eq!(
        i,
        vec![
            ("user-agent".to_string(), default_user_agents()[2].clone()),
            ("referer".to_string(), "http://img.wenku8.com/".to_string()),
            ("accept".to_string(), "image/webp,image/apng,image/*,*/*;q=0.8".to_string()),
        ]
    );
}

#[test]
fn retry_delays_follow_table_and_never_shrink() {
    let got: Vec<u64> = (0..12).map(retry_delay).collect();
    assert_eq!(got, vec![0, 50, 100, 150, 200, 300, 600, 600, 600, 600, 600, 600]);
    for w in got.windows(2) {
        assert!(w[0] <= w[1]);
    }
}

#[test]
fn page_status_success_reads_body() {
    let mut a = Attempts::new();
    assert!(matches!(a.page_status(200, None), StatusStep::ReadBody));
    assert_eq!(a.attempt, 0);
}

#[test]
fn page_status_too_many_requests() {
    let mut a = Attempts::new();
    assert!(matches!(a.page_status(429, Some("30")), StatusStep::Retry { pause_secs: 0 }));
    assert_eq!(a.attempt, 1);
    assert_eq!(a.last_error, "429");
    let mut b = Attempts { attempt: 6, last_error: String::new() };
    assert!(matches!(b.page_status(429, Some("3")), StatusStep::Retry { pause_secs: 3 }));
    let mut c = Attempts { attempt: 7, last_error: String::new() };
    assert!(matches!(c.page_status(429, Some("soon")), StatusStep::Retry { pause_secs: 5 }));
    let mut d = Attempts { attempt: 8, last_error: String::new() };
    assert!(matches!(d.page_status(429, None), StatusStep::Retry { pause_secs: 5 }));
}

#[test]
fn page_status_server_errors_retry() {
    let mut a = Attempts::new();
    assert!(matches!(a.page_status(503, None), StatusStep::Retry { pause_secs: 0 }));
    assert!(matches!(a.page_status(408, None), StatusStep::Retry { pause_secs: 0 }));
    assert_eq!(a.attempt, 2);
    assert_eq!(a.last_error, "408");
}

#[test]
fn page_status_client_error_retries_too() {
    let mut a = Attempts { attempt: 2, last_error: "x".to_string() };
    assert!(matches!(a.page_status(404, None), StatusStep::Retry { pause_secs: 0 }));
    assert_eq!(a.attempt, 3);
    assert_eq!(a.last_error, "404");
}

#[test]
fn page_download_ends_after_ten_statuses() {
    let mut a = Attempts::new();
    for _ in 0..MAX_ATTEMPTS {
        assert!(a.next_delay(URL, false).is_ok());
        assert!(matches!(a.page_status(403, None), StatusStep::Retry { pause_secs: 0 }));
    }
    let e = a.next_delay(URL, false).unwrap_err();
    assert_eq!(e.kind, ErrorKind::Network);
    assert_eq!(e.message, format!("{URL}:10:403"));
}

#[test]
fn attempts_run_out_after_ten() {
    let mut a = Attempts::new();
    for i in 0..MAX_ATTEMPTS {
        assert_eq!(a.next_delay(URL, false).unwrap(), retry_delay(i));
        a.failed("timed out".to_string());
    }
    let e = a.next_delay(URL, false).unwrap_err();
    assert_eq!(e.kind, ErrorKind::Network);
    assert_eq!(e.message, format!("{URL}:10:timed out"));
}

#[test]
fn image_policy_waits_fifty_and_retries_any_status() {
    let mut a = Attempts::new();
    assert_eq!(a.next_delay(URL, true).unwrap(), 0);
    assert!(!a.image_status(403));
    assert_eq!(a.last_error, "403");
    assert_eq!(a.next_delay(URL, true).unwrap(), 50);
    assert!(a.image_status(204));
}

#[test]
fn decode_page_reads_gbk() {
    assert_eq!(decode_page(b"abc"), "abc");
    assert_eq!(decode_page(&[0xD6, 0xD0, 0xCE, 0xC4]), "中文");
}
