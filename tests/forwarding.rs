use open_mantle_proxy::engine::{Attempt, FallbackPolicy, Forwarding, Outcome, Step};
use open_mantle_proxy::intercept::{
    begin_forwarding, is_spoofed, outbound_target, outbound_uri, ForwardError, ProxyConfig,
};
use open_mantle_proxy::headers::{forwarded_headers, is_host_header};
use open_mantle_proxy::mode::{ProxyMode, Upstream};

fn answer(status: u16, body: &[u8]) -> Attempt {
    Attempt::Answered(Outcome { status, headers: vec![(b"x-cape".to_vec(), b"1".to_vec())], body: body.to_vec() })
}

fn expect_fetch(f: &Forwarding, upstream: Upstream) {
    match f.next_step() {
        Step::Fetch(u) => assert_eq!(u, upstream),
        _ => panic!("expected a fetch"),
    }
}

fn expect_reply(f: &Forwarding, status: u16, body: &[u8]) {
    match f.next_step() {
        Step::Reply(o) => {
            assert_eq!(o.status, status);
            assert_eq!(o.headers, vec![(b"x-cape".to_vec(), b"1".to_vec())]);
            assert_eq!(o.body, body.to_vec());
        }
        _ => panic!("expected a reply"),
    }
}

#[test]
fn first_answer_404_is_replied_without_second_candidate() {
    let mut f = Forwarding::new(ProxyMode::PreferPrimaryFallbackSecondary, FallbackPolicy::FirstAnswer);
    expect_fetch(&f, Upstream::Legacy);
    f.record(answer(404, b""));
    expect_reply(&f, 404, b"");
    f.record(answer(200, b"cape"));
    expect_reply(&f, 404, b"");
}

#[test]
fn until_final_tries_second_candidate() {
    let mut f = Forwarding::new(ProxyMode::PreferPrimaryFallbackSecondary, FallbackPolicy::UntilFinal);
    expect_fetch(&f, Upstream::Legacy);
    f.record(answer(404, b""));
    expect_fetch(&f, Upstream::Mantle);
    f.record(answer(200, b"cape"));
    expect_reply(&f, 200, b"cape");
}

#[test]
fn until_final_exhausted_replies_first_answer() {
    let mut f = Forwarding::new(ProxyMode::PreferSecondaryFallbackPrimary, FallbackPolicy::UntilFinal);
    expect_fetch(&f, Upstream::Mantle);
    f.record(answer(200, b"{\"error\":\"Not Found\"}"));
    expect_fetch(&f, Upstream::Legacy);
    f.record(answer(404, b"missing"));
    expect_reply(&f, 200, b"{\"error\":\"Not Found\"}");
}

#[test]
fn final_answer_stops_at_first_candidate() {
    let mut f = Forwarding::new(ProxyMode::PreferSecondaryFallbackPrimary, FallbackPolicy::UntilFinal);
    f.record(answer(200, b"cape"));
    expect_reply(&f, 200, b"cape");
}

#[test]
fn unreachable_candidate_gives_empty_reply() {
    let mut f = Forwarding::new(ProxyMode::Primary, FallbackPolicy::FirstAnswer);
    expect_fetch(&f, Upstream::Mantle);
    f.record(Attempt::Unreachable);
    assert!(matches!(f.next_step(), Step::ReplyEmpty));
}

#[test]
fn unreachable_first_then_answer_from_second() {
    let mut f = Forwarding::new(ProxyMode::PreferPrimaryFallbackSecondary, FallbackPolicy::FirstAnswer);
    f.record(Attempt::Unreachable);
    expect_fetch(&f, Upstream::Mantle);
    f.record(answer(404, b""));
    expect_reply(&f, 404, b"");
}

#[test]
fn all_unreachable_gives_empty_reply() {
    let mut f = Forwarding::new(ProxyMode::PreferSecondaryFallbackPrimary, FallbackPolicy::UntilFinal);
    f.record(Attempt::Unreachable);
    f.record(Attempt::Unreachable);
    assert!(matches!(f.next_step(), Step::ReplyEmpty));
}

#[test]
fn unrelated_host_is_not_forwarded() {
    let config = ProxyConfig { mode: ProxyMode::Primary, policy: FallbackPolicy::FirstAnswer };
    assert!(matches!(begin_forwarding(&config, b"example.com"), Err(ForwardError::NotIntercepted)));
    assert!(matches!(begin_forwarding(&config, b"s.optifine.ne"), Err(ForwardError::NotIntercepted)));
    assert!(matches!(begin_forwarding(&config, b"s.optifine.net.evil"), Err(ForwardError::NotIntercepted)));
    assert!(matches!(begin_forwarding(&config, b""), Err(ForwardError::NotIntercepted)));
}

#[test]
fn spoofed_host_is_forwarded() {
    let config = ProxyConfig {
        mode: ProxyMode::PreferPrimaryFallbackSecondary,
        policy: FallbackPolicy::FirstAnswer,
    };
    let f = begin_forwarding(&config, b"s.optifine.net").unwrap();
    expect_fetch(&f, Upstream::Legacy);
    assert!(is_spoofed(b"s.optifine.net:80"));
    assert!(!is_spoofed(b"capes.mantle.gg"));
}

#[test]
fn outbound_uri_rewrites_authority() {
    let u = outbound_uri(Upstream::Mantle, "/capes/Notch.png").unwrap();
    assert_eq!(u.to_string(), "http://capes.mantle.gg/capes/Notch.png");
    let v = outbound_uri(Upstream::Legacy, "/capes/Notch.png?x=1").unwrap();
    assert_eq!(v.to_string(), "http://107.182.233.85/capes/Notch.png?x=1");
}

#[test]
fn outbound_uri_rejects_bad_target() {
    assert_eq!(
        outbound_uri(Upstream::Mantle, "/capes/a b.png").unwrap_err(),
        ForwardError::MalformedTarget
    );
}

#[test]
fn spoofed_host_ignores_case_and_takes_only_a_port() {
    assert!(is_spoofed(b"S.OptiFine.NET"));
    assert!(is_spoofed(b"s.optifine.net:8080"));
    assert!(!is_spoofed(b"s.optifine.net:"));
    assert!(!is_spoofed(b"s.optifine.net:80x"));
    assert!(!is_spoofed(b"s.optifine.net:@evil"));
}

#[test]
fn outbound_target_text() {
    assert_eq!(outbound_target(Upstream::Mantle, "/capes/a.png?v=2"), "http://capes.mantle.gg/capes/a.png?v=2");
    assert_eq!(outbound_target(Upstream::Legacy, "/"), "http://107.182.233.85/");
}

#[test]
fn forwarded_headers_drop_host_only() {
    let h = vec![
        (b"Host".to_vec(), b"s.optifine.net".to_vec()),
        (b"user-agent".to_vec(), b"game".to_vec()),
        (b"HOST".to_vec(), b"x".to_vec()),
        (b"accept".to_vec(), b"*/*".to_vec()),
    ];
    assert_eq!(
        forwarded_headers(&h),
        vec![(b"user-agent".to_vec(), b"game".to_vec()), (b"accept".to_vec(), b"*/*".to_vec())]
    );
    assert!(is_host_header(b"hOsT"));
    assert!(!is_host_header(b"hosts"));
}
