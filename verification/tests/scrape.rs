use xcount::entity::{InteractionCounter, MainEntity, ProfileData};
use xcount::output::CrawlResult;
use xcount::scrape::{
    profile_schema_text, stats_from_captures, stats_from_divs, use_div, use_relay_script,
    ScrapeError,
};

fn relay_page(screen: &str, followers: &str) -> String {
    format!(
        "<script>$R[1]={{a:!0}};$R[2]={{followers:{followers},following:1381,friends:0,\
         restId:\"32660559\",screenName:\"{screen}\",tweets:54325}}</script>"
    )
}

fn counts(r: &CrawlResult) -> (String, u64, u64) {
    (r.username.clone(), r.followers, r.following)
}

#[test]
fn relay_block_read() {
    let page = relay_page("wizkidayo", "14225857");
    let r = use_relay_script(&page, "wizkidayo").unwrap();
    assert_eq!(counts(&r), ("wizkidayo".to_string(), 14225857, 1381));
}

#[test]
fn relay_screen_name_ignores_ascii_case() {
    let page = relay_page("WizKidAyo", "5");
    let r = use_relay_script(&page, "wizkidayo").unwrap();
    assert_eq!(counts(&r), ("wizkidayo".to_string(), 5, 1381));
}

#[test]
fn relay_other_account() {
    let page = relay_page("someoneelse", "5");
    assert_eq!(
        use_relay_script(&page, "wizkidayo").unwrap_err(),
        ScrapeError::ScreenNameMismatch("someoneelse".to_string())
    );
}

#[test]
fn relay_no_block() {
    assert_eq!(
        use_relay_script("<html>nothing here</html>", "x").unwrap_err(),
        ScrapeError::StatsNotFound
    );
}

#[test]
fn relay_count_too_large() {
    let page = relay_page("x", "99999999999999999999");
    assert_eq!(use_relay_script(&page, "x").unwrap_err(), ScrapeError::FollowersUnparsable);
}

#[test]
fn captures_checked_in_order() {
    let g = |s: &str| Some(s.to_string());
    let caps = vec![g("all"), g("1"), g("2"), g("3"), g("me"), g("4")];
    let r = stats_from_captures(&caps, "ME").unwrap();
    assert_eq!(counts(&r), ("ME".to_string(), 1, 2));
    let bad_following = vec![g("all"), g("1"), g("x"), g("3"), g("me"), g("4")];
    assert_eq!(stats_from_captures(&bad_following, "me").unwrap_err(), ScrapeError::FollowingUnparsable);
    let bad_tweets = vec![g("all"), g("1"), g("2"), g("3"), g("me"), g("٤")];
    assert_eq!(stats_from_captures(&bad_tweets, "me").unwrap_err(), ScrapeError::TweetsUnparsable);
    let short = vec![g("all"), g("1")];
    assert_eq!(stats_from_captures(&short, "me").unwrap_err(), ScrapeError::StatsNotFound);
}

#[test]
fn schema_script_text() {
    let page = "<html><head><script data-testid=\"UserProfileSchema-test\" \
                type=\"application/ld+json\">{\"mainEntity\":{}}</script></head><body></body></html>";
    assert_eq!(profile_schema_text(page), Ok("{\"mainEntity\":{}}".to_string()));
    assert_eq!(profile_schema_text("<p>hi</p>"), Err(ScrapeError::SchemaNotFound));
}

#[test]
fn schema_counts() {
    let stat = |name: &str, count: u64| InteractionCounter { name: name.to_string(), count };
    let profile = ProfileData {
        main_entity: MainEntity {
            interaction_statistic: vec![
                stat("Follows", 10),
                stat("Friends", 20),
                stat("Tweets", 30),
                stat("Follows", 11),
            ],
        },
    };
    let r = profile.crawl_result("someone".to_string());
    assert_eq!(counts(&r), ("someone".to_string(), 11, 20));
    let empty = ProfileData { main_entity: MainEntity { interaction_statistic: vec![] } };
    assert_eq!(counts(&empty.crawl_result("n".to_string())), ("n".to_string(), 0, 0));
}

fn stat_div(name: &str, count: &str) -> String {
    format!(
        "<div itemtype=\"https://schema.org/InteractionCounter\">\
         <meta itemprop=\"name\" content=\"{name}\"><meta itemprop=\"userInteractionCount\" content=\"{count}\"></div>"
    )
}

#[test]
fn divs_read() {
    let page = format!(
        "<html><body><div itemprop=\"mainEntity\">{}{}{}</div></body></html>",
        stat_div("Follows", "418"),
        stat_div("Following", "166"),
        stat_div("Tweets", "9")
    );
    let r = use_div(&page, "daviddanielng").unwrap();
    assert_eq!(counts(&r), ("daviddanielng".to_string(), 418, 166));
}

#[test]
fn divs_missing() {
    assert_eq!(use_div("<html><body></body></html>", "x").unwrap_err(), ScrapeError::StatsMissing);
}

#[test]
fn divs_skip_incomplete_entries() {
    let s = |x: &str| Some(x.to_string());
    let names = vec![s("Follows"), None, s("Following"), s("Follows")];
    let counts_in = vec![s("5"), s("6"), s("x"), s("7")];
    let r = stats_from_divs(&names, &counts_in, "u").unwrap();
    assert_eq!(counts(&r), ("u".to_string(), 7, 0));
    let none = vec![None, s("Follows")];
    let bad = vec![s("1"), s("no")];
    assert_eq!(stats_from_divs(&none, &bad, "u").unwrap_err(), ScrapeError::StatsMissing);
}

#[test]
fn error_messages() {
    assert_eq!(ScrapeError::StatsNotFound.message("bob"), "Failed to find profile stats for bob");
    assert_eq!(
        ScrapeError::ScreenNameMismatch("al".to_string()).message("bob"),
        "Profile stats screen_name mismatch for bob (got al)"
    );
    assert_eq!(ScrapeError::FollowersUnparsable.message("bob"), "Failed to parse follower count for bob");
    assert_eq!(ScrapeError::FollowingUnparsable.message("bob"), "Failed to parse following count for bob");
    assert_eq!(ScrapeError::TweetsUnparsable.message("bob"), "Failed to parse tweet count for bob");
    assert_eq!(ScrapeError::SelectorInvalid.message("bob"), "Failed to parse selector for bob");
    assert_eq!(ScrapeError::SchemaNotFound.message("bob"), "No profile schema found for bob");
    assert_eq!(ScrapeError::StatsMissing.message("bob"), "Interaction stats not found for bob.");
    assert_eq!(
        ScrapeError::SchemaUnparsable("eof".to_string()).message("bob"),
        "Failed to parse JSON-LD for bob: eof"
    );
    assert_eq!(ScrapeError::RequestFailed.message("bob"), "Failed to get response for bob");
    assert_eq!(ScrapeError::BodyFailed.message("bob"), "Failed to get body for bob");
}
