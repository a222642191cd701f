//! Reading an account's counts out of its profile page.
use vstd::prelude::*;
use crate::output::CrawlResult;
use crate::entity::last_count;
use crate::text::{ascii_lower, eq_ignore_ascii_case, eq_ignore_ascii_case_spec, parse_u64, spec_parse_u64, str_equals};

verus! {

/// Why no counts could be read for an account.
#[derive(Clone, Debug, PartialEq, Eq)]
pub enum ScrapeError {
    /// The page holds no block of profile statistics.
    StatsNotFound,
    /// The statistics found belong to another account (its screen name is kept).
    ScreenNameMismatch(String),
    /// The follower count is no unsigned number.
    FollowersUnparsable,
    /// The following count is no unsigned number.
    FollowingUnparsable,
    /// The tweet count is no unsigned number.
    TweetsUnparsable,
    /// A CSS selector did not parse.
    SelectorInvalid,
    /// The page holds no profile schema script.
    SchemaNotFound,
    /// The page holds no interaction statistics.
    StatsMissing,
    /// The profile schema is not the JSON expected (the parser's message is kept).
    SchemaUnparsable(String),
    /// The request for the profile page failed.
    RequestFailed,
    /// The profile page's body could not be read.
    BodyFailed,
}

/// A [`ScrapeError`] with the screen name as its characters.
pub enum ScrapeErrorView {
    StatsNotFound,
    ScreenNameMismatch(Seq<char>),
    FollowersUnparsable,
    FollowingUnparsable,
    TweetsUnparsable,
    SelectorInvalid,
    SchemaNotFound,
    StatsMissing,
    SchemaUnparsable(Seq<char>),
    RequestFailed,
    BodyFailed,
}

impl View for ScrapeError {
    type V = ScrapeErrorView;

    open spec fn view(&self) -> ScrapeErrorView {
        match self {
            ScrapeError::StatsNotFound => ScrapeErrorView::StatsNotFound,
            ScrapeError::ScreenNameMismatch(s) => ScrapeErrorView::ScreenNameMismatch(s@),
            ScrapeError::FollowersUnparsable => ScrapeErrorView::FollowersUnparsable,
            ScrapeError::FollowingUnparsable => ScrapeErrorView::FollowingUnparsable,
            ScrapeError::TweetsUnparsable => ScrapeErrorView::TweetsUnparsable,
            ScrapeError::SelectorInvalid => ScrapeErrorView::SelectorInvalid,
            ScrapeError::SchemaNotFound => ScrapeErrorView::SchemaNotFound,
            ScrapeError::StatsMissing => ScrapeErrorView::StatsMissing,
            ScrapeError::SchemaUnparsable(s) => ScrapeErrorView::SchemaUnparsable(s@),
            ScrapeError::RequestFailed => ScrapeErrorView::RequestFailed,
            ScrapeError::BodyFailed => ScrapeErrorView::BodyFailed,
        }
    }
}

/// The message that reports `e` for the account `u`.
pub open spec fn error_message(e: ScrapeErrorView, u: Seq<char>) -> Seq<char> {
    match e {
        ScrapeErrorView::StatsNotFound => "Failed to find profile stats for "@ + u,
        ScrapeErrorView::ScreenNameMismatch(got) => "Profile stats screen_name mismatch for "@ + u
            + " (got "@ + got + ")"@,
        ScrapeErrorView::FollowersUnparsable => "Failed to parse follower count for "@ + u,
        ScrapeErrorView::FollowingUnparsable => "Failed to parse following count for "@ + u,
        ScrapeErrorView::TweetsUnparsable => "Failed to parse tweet count for "@ + u,
        ScrapeErrorView::SelectorInvalid => "Failed to parse selector for "@ + u,
        ScrapeErrorView::SchemaNotFound => "No profile schema found for "@ + u,
        ScrapeErrorView::StatsMissing => "Interaction stats not found for "@ + u + "."@,
        ScrapeErrorView::SchemaUnparsable(why) => "Failed to parse JSON-LD for "@ + u + ": "@
            + why,
        ScrapeErrorView::RequestFailed => "Failed to get response for "@ + u,
        ScrapeErrorView::BodyFailed => "Failed to get body for "@ + u,
    }
}

impl ScrapeError {
    /// The message that reports this error for the account `username`.
    pub fn message(&self, username: &str) -> (m: String)
        ensures
            m@ == error_message(self@, username@),
    {
        let (head, tail): (&str, Option<(&str, &str, &str)>) = match self {
            ScrapeError::StatsNotFound => ("Failed to find profile stats for ", None),
            ScrapeError::ScreenNameMismatch(got) => (
                "Profile stats screen_name mismatch for ",
                Some((" (got ", got.as_str(), ")")),
            ),
            ScrapeError::FollowersUnparsable => ("Failed to parse follower count for ", None),
            ScrapeError::FollowingUnparsable => ("Failed to parse following count for ", None),
            ScrapeError::TweetsUnparsable => ("Failed to parse tweet count for ", None),
            ScrapeError::SelectorInvalid => ("Failed to parse selector for ", None),
            ScrapeError::SchemaNotFound => ("No profile schema found for ", None),
            ScrapeError::StatsMissing => ("Interaction stats not found for ", Some(("", "", "."))),
            ScrapeError::SchemaUnparsable(why) => (
                "Failed to parse JSON-LD for ",
                Some((": ", why.as_str(), "")),
            ),
            ScrapeError::RequestFailed => ("Failed to get response for ", None),
            ScrapeError::BodyFailed => ("Failed to get body for ", None),
        };
        let mut m = String::from_str(head);
        m.append(username);
        if let Some((a, b, c)) = tail {
            m.append(a);
            m.append(b);
            m.append(c);
        }
        proof {
            reveal_strlit("");
        }
        m
    }
}

/// What the page gives for an account, seen as plain values: the username with
/// its follower and following counts, or the error.
pub type ScrapeOutcome = Result<(Seq<char>, u64, u64), ScrapeErrorView>;

/// The pattern that finds the flat block of profile statistics in a profile
/// page's inline script: followers, following, the account id, the screen name
/// and the tweet count, e.g.
/// `followers:14225857,following:1381,...,restId:"32660559",screenName:"wizkidayo",tweets:54325`.
pub const PROFILE_STATS_PATTERN: &'static str = r#"(?s)followers:(\d+),following:(\d+),.*?restId:"(\d+)",screenName:"([^"]+)",tweets:(\d+)"#;

/// What `regex::Regex::new(pattern)` followed by `captures(haystack)` gives: `None`
/// where the pattern does not compile or does not match, else the text of each
/// capture group (group 0 is the whole match; `None` for a group that took no part).
pub uninterp spec fn regex_captures_spec(pattern: Seq<char>, haystack: Seq<char>) -> Option<
    Seq<Option<Seq<char>>>,
>;

/// The first (leftmost-first) match of `pattern` in `haystack`, by the `regex` crate.
/// Trusted: the result is `regex_captures_spec(pattern, haystack)`, a function of
/// the two texts alone; the regex semantics are not written out here.
#[verifier::external_body]
fn regex_captures(pattern: &str, haystack: &str) -> (r: Option<Vec<Option<String>>>)
    ensures
        r.deep_view() == regex_captures_spec(pattern@, haystack@),
{
    let re = regex::Regex::new(pattern).ok()?;
    let caps = re.captures(haystack)?;
    Some(caps.iter().map(|m| m.map(|m| m.as_str().to_string())).collect())
}

/// Capture group `i` of `caps`, where it took part.
pub open spec fn group(caps: Seq<Option<Seq<char>>>, i: int) -> Option<Seq<char>> {
    if 0 <= i < caps.len() {
        caps[i]
    } else {
        None
    }
}

/// What the statistics block that `caps` captured gives for `username`: the
/// block must name the account (its screen name equal up to ASCII case), and
/// the follower, following and tweet counts must be unsigned numbers (checked
/// in that order).
pub open spec fn relay_outcome(caps: Seq<Option<Seq<char>>>, username: Seq<char>) -> ScrapeOutcome {
    if group(caps, 1) is None || group(caps, 2) is None || group(caps, 4) is None || group(
        caps,
        5,
    ) is None {
        Err(ScrapeErrorView::StatsNotFound)
    } else if !eq_ignore_ascii_case_spec(group(caps, 4)->0, username) {
        Err(ScrapeErrorView::ScreenNameMismatch(group(caps, 4)->0))
    } else if spec_parse_u64(group(caps, 1)->0) is None {
        Err(ScrapeErrorView::FollowersUnparsable)
    } else if spec_parse_u64(group(caps, 2)->0) is None {
        Err(ScrapeErrorView::FollowingUnparsable)
    } else if spec_parse_u64(group(caps, 5)->0) is None {
        Err(ScrapeErrorView::TweetsUnparsable)
    } else {
        Ok((username, spec_parse_u64(group(caps, 1)->0)->0, spec_parse_u64(group(caps, 2)->0)->0))
    }
}

/// `a` and `b` are the same text up to the case of ASCII letters: of one length,
/// each pair of characters equal, or an ASCII letter and its other case.
pub open spec fn same_but_ascii_case(a: Seq<char>, b: Seq<char>) -> bool {
    &&& a.len() == b.len()
    &&& forall|i: int|
        0 <= i < a.len() ==> {
            let (x, y) = (#[trigger] a[i], b[i]);
            ||| x == y
            ||| 'A' <= x && x <= 'Z' && y as int == x as int + 32
            ||| 'a' <= x && x <= 'z' && y as int == x as int - 32
        }
}

proof fn lemma_eq_ignore_case_is_same_but_case(a: Seq<char>, b: Seq<char>)
    ensures
        eq_ignore_ascii_case_spec(a, b) <==> same_but_ascii_case(a, b),
{
    if a.len() == b.len() {
        assert forall|i: int| 0 <= i < a.len() implies (ascii_lower(#[trigger] a[i]) == ascii_lower(
            b[i],
        )) == ({
            let (x, y) = (a[i], b[i]);
            ||| x == y
            ||| 'A' <= x && x <= 'Z' && y as int == x as int + 32
            ||| 'a' <= x && x <= 'z' && y as int == x as int - 32
        }) by {
            let (x, y) = (a[i], b[i]);
            if 'A' <= x && x <= 'Z' {
                assert(ascii_lower(x) as int == x as int + 32);
            }
            if 'A' <= y && y <= 'Z' {
                assert(ascii_lower(y) as int == y as int + 32);
            }
        }
    }
}

/// Relay law: the statistics block gives a result exactly when it holds the
/// follower, following, screen-name and tweet groups, the screen name is the
/// requested username up to ASCII case (same length, character by character),
/// and the three counts are unsigned numbers; the result is then the requested
/// username with the block's follower and following counts.
pub proof fn lemma_relay_names_the_account(caps: Seq<Option<Seq<char>>>, username: Seq<char>)
    ensures
        relay_outcome(caps, username) is Ok <==> {
            &&& caps.len() > 5
            &&& caps[1] is Some && caps[2] is Some && caps[4] is Some && caps[5] is Some
            &&& same_but_ascii_case(caps[4]->0, username)
            &&& spec_parse_u64(caps[1]->0) is Some
            &&& spec_parse_u64(caps[2]->0) is Some
            &&& spec_parse_u64(caps[5]->0) is Some
        },
        relay_outcome(caps, username) matches Ok((u, f, g)) ==> {
            &&& u == username
            &&& Some(f) == spec_parse_u64(caps[1]->0)
            &&& Some(g) == spec_parse_u64(caps[2]->0)
        },
        caps.len() > 5 && caps[1] is Some && caps[2] is Some && caps[4] is Some && caps[5] is Some
            && !same_but_ascii_case(caps[4]->0, username) ==> relay_outcome(caps, username)
            == Err::<(Seq<char>, u64, u64), ScrapeErrorView>(
            ScrapeErrorView::ScreenNameMismatch(caps[4]->0),
        ),
{
    if caps.len() > 5 && caps[4] is Some {
        lemma_eq_ignore_case_is_same_but_case(caps[4]->0, username);
    }
}

/// A result or error seen as plain values.
pub open spec fn outcome_of(r: Result<CrawlResult, ScrapeError>) -> ScrapeOutcome {
    match r {
        Ok(c) => Ok((c.username@, c.followers, c.following)),
        Err(e) => Err(e@),
    }
}

fn group_at(caps: &Vec<Option<String>>, i: usize) -> (g: Option<&String>)
    ensures
        g.deep_view() == group(caps.deep_view(), i as int),
{
    if i < caps.len() {
        match &caps[i] {
            Some(s) => Some(s),
            None => None,
        }
    } else {
        None
    }
}

/// Reads the counts for `username` out of the capture groups of
/// [`PROFILE_STATS_PATTERN`].
pub fn stats_from_captures(caps: &Vec<Option<String>>, username: &str) -> (r: Result<
    CrawlResult,
    ScrapeError,
>)
    ensures
        outcome_of(r) == relay_outcome(caps.deep_view(), username@),
{
    let (followers_text, following_text, screen_name, tweets_text) = match (
        group_at(caps, 1),
        group_at(caps, 2),
        group_at(caps, 4),
        group_at(caps, 5),
    ) {
        (Some(a), Some(b), Some(c), Some(d)) => (a, b, c, d),
        _ => {
            return Err(ScrapeError::StatsNotFound);
        },
    };
    if !eq_ignore_ascii_case(screen_name.as_str(), username) {
        return Err(ScrapeError::ScreenNameMismatch(screen_name.clone()));
    }
    let followers = match parse_u64(followers_text.as_str()) {
        Some(v) => v,
        None => {
            return Err(ScrapeError::FollowersUnparsable);
        },
    };
    let following = match parse_u64(following_text.as_str()) {
        Some(v) => v,
        None => {
            return Err(ScrapeError::FollowingUnparsable);
        },
    };
    if parse_u64(tweets_text.as_str()).is_none() {
        return Err(ScrapeError::TweetsUnparsable);
    }
    Ok(CrawlResult::new(String::from_str(username), followers, following))
}

/// Reads the counts for `username` from a profile page's body, out of the
/// inline script's statistics block.
pub fn use_relay_script(body: &str, username: &str) -> (r: Result<CrawlResult, ScrapeError>)
    ensures
        match regex_captures_spec(PROFILE_STATS_PATTERN@, body@) {
            None => outcome_of(r) == Err::<(Seq<char>, u64, u64), ScrapeErrorView>(
                ScrapeErrorView::StatsNotFound,
            ),
            Some(caps) => outcome_of(r) == relay_outcome(caps, username@),
        },
{
    match regex_captures(PROFILE_STATS_PATTERN, body) {
        None => Err(ScrapeError::StatsNotFound),
        Some(caps) => stats_from_captures(&caps, username),
    }
}

/// The selector of the script that once carried the profile schema as JSON-LD.
pub const PROFILE_SCHEMA_SELECTOR: &'static str = r#"script[data-testid="UserProfileSchema-test"]"#;

/// What `scraper` gives for the first element of `html` (parsed as a document
/// with `Html::parse_document`) that matches the CSS `selector`: `None` where the
/// selector does not parse (`Selector::parse`), `Some(None)` where nothing
/// matches, else the element's text (all descendant text, in document order).
pub uninterp spec fn html_first_text_spec(html: Seq<char>, selector: Seq<char>) -> Option<
    Option<Seq<char>>,
>;

/// Text of the first element of `html` that matches `selector` (`scraper` crate).
/// Trusted: the result is `html_first_text_spec(html, selector)`, a function of the
/// two texts alone; HTML and CSS parsing are not written out here.
#[verifier::external_body]
fn html_first_text(html: &str, selector: &str) -> (r: Option<Option<String>>)
    ensures
        r.deep_view() == html_first_text_spec(html@, selector@),
{
    let selector = scraper::Selector::parse(selector).ok()?;
    let document = scraper::Html::parse_document(html);
    match document.select(&selector).next() {
        Some(element) => Some(Some(element.text().collect())),
        None => Some(None),
    }
}

/// The profile schema script's text in a profile page's body.
pub fn profile_schema_text(body: &str) -> (r: Result<String, ScrapeError>)
    ensures
        match html_first_text_spec(body@, PROFILE_SCHEMA_SELECTOR@) {
            None => r matches Err(e) && e@ == ScrapeErrorView::SelectorInvalid,
            Some(None) => r matches Err(e) && e@ == ScrapeErrorView::SchemaNotFound,
            Some(Some(t)) => r matches Ok(s) && s@ == t,
        },
{
    match html_first_text(body, PROFILE_SCHEMA_SELECTOR) {
        None => Err(ScrapeError::SelectorInvalid),
        Some(None) => Err(ScrapeError::SchemaNotFound),
        Some(Some(text)) => Ok(text),
    }
}

/// The selector of the `div`s that once held one interaction statistic each.
pub const STAT_DIV_SELECTOR: &'static str = "div[itemprop='mainEntity'] > div[itemtype='https://schema.org/InteractionCounter']";

/// The selector of a statistic's name inside its `div`.
pub const STAT_NAME_SELECTOR: &'static str = "meta[itemprop='name']";

/// The selector of a statistic's count inside its `div`.
pub const STAT_COUNT_SELECTOR: &'static str = "meta[itemprop='userInteractionCount']";

/// What `scraper` gives, for each element of `html` (parsed as a document) that
/// matches the CSS selector `outer`, in document order: the value of the
/// attribute `attr` on the first descendant that matches `inner` (`None` where no
/// descendant matches or it has no such attribute). `None` where either selector
/// does not parse.
pub uninterp spec fn html_descendant_attrs_spec(
    html: Seq<char>,
    outer: Seq<char>,
    inner: Seq<char>,
    attr: Seq<char>,
) -> Option<Seq<Option<Seq<char>>>>;

/// For each element matching `outer`, the `attr` of its first descendant matching
/// `inner` (`scraper` crate). Trusted: the result is
/// `html_descendant_attrs_spec(html, outer, inner, attr)`, a function of the texts
/// alone; HTML and CSS parsing are not written out here.
#[verifier::external_body]
fn html_descendant_attrs(html: &str, outer: &str, inner: &str, attr: &str) -> (r: Option<
    Vec<Option<String>>,
>)
    ensures
        r.deep_view() == html_descendant_attrs_spec(html@, outer@, inner@, attr@),
{
    let outer = scraper::Selector::parse(outer).ok()?;
    let inner = scraper::Selector::parse(inner).ok()?;
    let document = scraper::Html::parse_document(html);
    let mut found = Vec::new();
    for element in document.select(&outer) {
        found.push(match element.select(&inner).next() {
            Some(e) => e.attr(attr).map(String::from),
            None => None,
        });
    }
    Some(found)
}

/// The statistics that the first `n` stat `div`s give: (name, count) for each
/// whose name and count are both present and whose count is an unsigned number.
pub open spec fn div_entries(names: Seq<Option<Seq<char>>>, counts: Seq<Option<Seq<char>>>, n: int) -> Seq<
    (Seq<char>, u64),
>
    decreases n,
{
    if n <= 0 {
        Seq::empty()
    } else {
        let earlier = div_entries(names, counts, n - 1);
        match (names[n - 1], counts[n - 1]) {
            (Some(name), Some(count)) => match spec_parse_u64(count) {
                Some(v) => earlier.push((name, v)),
                None => earlier,
            },
            _ => earlier,
        }
    }
}

/// What the stat `div`s (names and counts, matched up by position) give for
/// `username`: an error where no statistic is complete, else followers from the
/// last `Follows` and following from the last `Following` statistic (0 where absent).
pub open spec fn div_outcome(
    names: Seq<Option<Seq<char>>>,
    counts: Seq<Option<Seq<char>>>,
    username: Seq<char>,
) -> ScrapeOutcome {
    let n = if names.len() < counts.len() { names.len() } else { counts.len() };
    let entries = div_entries(names, counts, n as int);
    if entries.len() == 0 {
        Err(ScrapeErrorView::StatsMissing)
    } else {
        Ok((username, last_count(entries, "Follows"@), last_count(entries, "Following"@)))
    }
}

/// The stat `div` at position `i` is complete: it has a name and a count, and the
/// count reads as an unsigned number (zero included).
pub open spec fn complete_stat(names: Seq<Option<Seq<char>>>, counts: Seq<Option<Seq<char>>>, i: int) -> bool {
    &&& 0 <= i < names.len()
    &&& i < counts.len()
    &&& names[i] is Some
    &&& counts[i] is Some
    &&& spec_parse_u64(counts[i]->0) is Some
}

/// `v` is the count of the last complete stat `div` before position `n` that is
/// called `name`, or 0 where no complete one before `n` is.
pub open spec fn last_stat_value(
    names: Seq<Option<Seq<char>>>,
    counts: Seq<Option<Seq<char>>>,
    n: int,
    name: Seq<char>,
    v: u64,
) -> bool {
    ||| exists|j: int|
        #![trigger complete_stat(names, counts, j)]
        {
            &&& j < n
            &&& complete_stat(names, counts, j)
            &&& names[j]->0 == name
            &&& spec_parse_u64(counts[j]->0) == Some(v)
            &&& forall|k: int|
                j < k < n && #[trigger] complete_stat(names, counts, k) ==> names[k]->0 != name
        }
    ||| v == 0 && forall|j: int|
        j < n && #[trigger] complete_stat(names, counts, j) ==> names[j]->0 != name
}

proof fn lemma_div_entries_found(names: Seq<Option<Seq<char>>>, counts: Seq<Option<Seq<char>>>, n: int)
    requires
        0 <= n <= names.len(),
        n <= counts.len(),
    ensures
        div_entries(names, counts, n).len() > 0 <==> exists|i: int|
            i < n && #[trigger] complete_stat(names, counts, i),
    decreases n,
{
    if n > 0 {
        lemma_div_entries_found(names, counts, n - 1);
        if complete_stat(names, counts, n - 1) {
            assert(div_entries(names, counts, n).len() > 0);
        } else {
            assert(div_entries(names, counts, n) == div_entries(names, counts, n - 1));
            if exists|i: int| i < n && #[trigger] complete_stat(names, counts, i) {
                let i = choose|i: int| i < n && #[trigger] complete_stat(names, counts, i);
                assert(i < n - 1);
            }
        }
    }
}

proof fn lemma_div_entries_last(
    names: Seq<Option<Seq<char>>>,
    counts: Seq<Option<Seq<char>>>,
    n: int,
    name: Seq<char>,
)
    requires
        0 <= n <= names.len(),
        n <= counts.len(),
    ensures
        last_stat_value(names, counts, n, name, last_count(div_entries(names, counts, n), name)),
    decreases n,
{
    if n > 0 {
        let m = n - 1;
        lemma_div_entries_last(names, counts, m, name);
        let before = div_entries(names, counts, m);
        let v0 = last_count(before, name);
        if complete_stat(names, counts, m) {
            let v = spec_parse_u64(counts[m]->0)->0;
            assert(div_entries(names, counts, n) == before.push((names[m]->0, v)));
            assert(before.push((names[m]->0, v)).drop_last() == before);
            if names[m]->0 == name {
                assert(complete_stat(names, counts, m));
            } else {
                if exists|j: int|
                    #![trigger complete_stat(names, counts, j)]
                    {
                        &&& j < m
                        &&& complete_stat(names, counts, j)
                        &&& names[j]->0 == name
                        &&& spec_parse_u64(counts[j]->0) == Some(v0)
                        &&& forall|k: int|
                            j < k < m && #[trigger] complete_stat(names, counts, k) ==> names[k]->0
                                != name
                    } {
                    let j = choose|j: int|
                        #![trigger complete_stat(names, counts, j)]
                        {
                            &&& j < m
                            &&& complete_stat(names, counts, j)
                            &&& names[j]->0 == name
                            &&& spec_parse_u64(counts[j]->0) == Some(v0)
                            &&& forall|k: int|
                                j < k < m && #[trigger] complete_stat(names, counts, k)
                                    ==> names[k]->0 != name
                        };
                    assert(complete_stat(names, counts, j));
                }
            }
        } else {
            assert(div_entries(names, counts, n) == before);
            if exists|j: int|
                #![trigger complete_stat(names, counts, j)]
                {
                    &&& j < m
                    &&& complete_stat(names, counts, j)
                    &&& names[j]->0 == name
                    &&& spec_parse_u64(counts[j]->0) == Some(v0)
                    &&& forall|k: int|
                        j < k < m && #[trigger] complete_stat(names, counts, k) ==> names[k]->0 != name
                } {
                let j = choose|j: int|
                    #![trigger complete_stat(names, counts, j)]
                    {
                        &&& j < m
                        &&& complete_stat(names, counts, j)
                        &&& names[j]->0 == name
                        &&& spec_parse_u64(counts[j]->0) == Some(v0)
                        &&& forall|k: int|
                            j < k < m && #[trigger] complete_stat(names, counts, k) ==> names[k]->0
                                != name
                    };
                assert(complete_stat(names, counts, j));
            }
        }
    }
}

/// Stat-div law: the `div`s give a result exactly when at least one of them is
/// complete (a name and a count that reads as an unsigned number, zero
/// included); the result is then the requested username, followers the count of
/// the last complete `Follows` stat and following that of the last complete
/// `Following` stat (0 where there is none). Otherwise the statistics are missing.
pub proof fn lemma_divs_read_complete_stats(
    names: Seq<Option<Seq<char>>>,
    counts: Seq<Option<Seq<char>>>,
    username: Seq<char>,
)
    ensures
        div_outcome(names, counts, username) is Ok <==> exists|i: int|
            #[trigger] complete_stat(names, counts, i),
        div_outcome(names, counts, username) is Err ==> div_outcome(names, counts, username)
            == Err::<(Seq<char>, u64, u64), ScrapeErrorView>(ScrapeErrorView::StatsMissing),
        div_outcome(names, counts, username) matches Ok((u, f, g)) ==> {
            &&& u == username
            &&& last_stat_value(names, counts, names.len() as int, "Follows"@, f)
            &&& last_stat_value(names, counts, names.len() as int, "Following"@, g)
        },
{
    let n = if names.len() < counts.len() { names.len() } else { counts.len() };
    lemma_div_entries_found(names, counts, n as int);
    lemma_div_entries_last(names, counts, n as int, "Follows"@);
    lemma_div_entries_last(names, counts, n as int, "Following"@);
    assert forall|i: int| #[trigger] complete_stat(names, counts, i) implies i < n by {}
    let entries = div_entries(names, counts, n as int);
    if entries.len() > 0 {
        let f = last_count(entries, "Follows"@);
        let g = last_count(entries, "Following"@);
        lemma_last_stat_bound(names, counts, n as int, names.len() as int, "Follows"@, f);
        lemma_last_stat_bound(names, counts, n as int, names.len() as int, "Following"@, g);
    }
}

proof fn lemma_last_stat_bound(
    names: Seq<Option<Seq<char>>>,
    counts: Seq<Option<Seq<char>>>,
    n: int,
    n2: int,
    name: Seq<char>,
    v: u64,
)
    requires
        n <= n2,
        forall|i: int| #[trigger] complete_stat(names, counts, i) ==> i < n,
        last_stat_value(names, counts, n, name, v),
    ensures
        last_stat_value(names, counts, n2, name, v),
{
    if exists|j: int|
        #![trigger complete_stat(names, counts, j)]
        {
            &&& j < n
            &&& complete_stat(names, counts, j)
            &&& names[j]->0 == name
            &&& spec_parse_u64(counts[j]->0) == Some(v)
            &&& forall|k: int|
                j < k < n && #[trigger] complete_stat(names, counts, k) ==> names[k]->0 != name
        } {
        let j = choose|j: int|
            #![trigger complete_stat(names, counts, j)]
            {
                &&& j < n
                &&& complete_stat(names, counts, j)
                &&& names[j]->0 == name
                &&& spec_parse_u64(counts[j]->0) == Some(v)
                &&& forall|k: int|
                    j < k < n && #[trigger] complete_stat(names, counts, k) ==> names[k]->0 != name
            };
        assert(complete_stat(names, counts, j));
    }
}

/// Reads the counts for `username` out of stat `div` names and counts.
pub fn stats_from_divs(names: &Vec<Option<String>>, counts: &Vec<Option<String>>, username: &str) -> (r:
    Result<CrawlResult, ScrapeError>)
    ensures
        outcome_of(r) == div_outcome(names.deep_view(), counts.deep_view(), username@),
{
    let n = if names.len() < counts.len() { names.len() } else { counts.len() };
    let ghost nv = names.deep_view();
    let ghost cv = counts.deep_view();
    let mut found_any = false;
    let mut follows: u64 = 0;
    let mut friends: u64 = 0;
    proof {
        reveal_strlit("Follows");
        reveal_strlit("Following");
        assert("Follows"@.len() != "Following"@.len());
    }
    for i in 0..n
        invariant
            n <= names.len(),
            n <= counts.len(),
            nv == names.deep_view(),
            cv == counts.deep_view(),
            "Follows"@ != "Following"@,
            found_any == (div_entries(nv, cv, i as int).len() > 0),
            follows == last_count(div_entries(nv, cv, i as int), "Follows"@),
            friends == last_count(div_entries(nv, cv, i as int), "Following"@),
    {
        assert(nv[i as int] == names@[i as int].deep_view());
        assert(cv[i as int] == counts@[i as int].deep_view());
        let ghost before = div_entries(nv, cv, i as int);
        if let (Some(name), Some(count)) = (&names[i], &counts[i]) {
            assert(nv[i as int] == Some(name@));
            assert(cv[i as int] == Some(count@));
            if let Some(v) = parse_u64(count.as_str()) {
                assert(div_entries(nv, cv, i + 1) == before.push((name@, v)));
                assert(before.push((name@, v)).drop_last() == before);
                found_any = true;
                if str_equals(name.as_str(), "Follows") {
                    follows = v;
                } else if str_equals(name.as_str(), "Following") {
                    friends = v;
                }
            } else {
                assert(div_entries(nv, cv, i + 1) == before);
            }
        } else {
            assert(div_entries(nv, cv, i + 1) == before);
        }
    }
    if !found_any {
        return Err(ScrapeError::StatsMissing);
    }
    Ok(CrawlResult::new(String::from_str(username), follows, friends))
}

/// Reads the counts for `username` from a profile page's body, out of the
/// schema.org interaction-counter `div`s.
pub fn use_div(body: &str, username: &str) -> (r: Result<CrawlResult, ScrapeError>)
    ensures
        match (
            html_descendant_attrs_spec(body@, STAT_DIV_SELECTOR@, STAT_NAME_SELECTOR@, "content"@),
            html_descendant_attrs_spec(body@, STAT_DIV_SELECTOR@, STAT_COUNT_SELECTOR@, "content"@),
        ) {
            (Some(names), Some(counts)) => outcome_of(r) == div_outcome(names, counts, username@),
            _ => r matches Err(e) && e@ == ScrapeErrorView::SelectorInvalid,
        },
{
    let names = html_descendant_attrs(body, STAT_DIV_SELECTOR, STAT_NAME_SELECTOR, "content");
    let counts = html_descendant_attrs(body, STAT_DIV_SELECTOR, STAT_COUNT_SELECTOR, "content");
    match (names, counts) {
        (Some(names), Some(counts)) => stats_from_divs(&names, &counts, username),
        _ => Err(ScrapeError::SelectorInvalid),
    }
}

} // verus!
