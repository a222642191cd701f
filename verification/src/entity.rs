//! The profile schema that X once embedded as JSON-LD, and the counts read from it.
use vstd::prelude::*;
use crate::output::CrawlResult;
use crate::text::str_equals;

verus! {

/// A profile page's schema object.
#[derive(Clone, Debug)]
pub struct ProfileData {
    pub main_entity: MainEntity,
}

/// The person the profile describes.
#[derive(Clone, Debug)]
pub struct MainEntity {
    pub interaction_statistic: Vec<InteractionCounter>,
}

/// One named statistic of a profile, such as `Follows`.
#[derive(Clone, Debug)]
pub struct InteractionCounter {
    pub name: String,
    pub count: u64,
}

/// The statistics as (name, count) pairs, in the order the schema lists them.
pub open spec fn statistics(p: ProfileData) -> Seq<(Seq<char>, u64)> {
    p.main_entity.interaction_statistic@.map_values(|c: InteractionCounter| (c.name@, c.count))
}

/// The count of the last statistic called `name` in `stats`, or 0 where none is.
pub open spec fn last_count(stats: Seq<(Seq<char>, u64)>, name: Seq<char>) -> u64
    decreases stats.len(),
{
    if stats.len() == 0 {
        0
    } else if stats.last().0 == name {
        stats.last().1
    } else {
        last_count(stats.drop_last(), name)
    }
}

/// The count read for a name is the one of its last statistic: with no statistic
/// of that name it is 0; otherwise some statistic has the name and that count,
/// and none after it has the name.
pub proof fn lemma_last_count_is_last(stats: Seq<(Seq<char>, u64)>, name: Seq<char>)
    ensures
        (forall|j: int| 0 <= j < stats.len() ==> stats[j].0 != name) ==> last_count(stats, name) == 0,
        (exists|j: int| 0 <= j < stats.len() && stats[j].0 == name) ==> exists|j: int|
            0 <= j < stats.len() && stats[j].0 == name && last_count(stats, name) == stats[j].1
                && forall|k: int| j < k < stats.len() ==> stats[k].0 != name,
    decreases stats.len(),
{
    if stats.len() > 0 {
        let n = stats.len() - 1;
        if stats.last().0 != name {
            let rest = stats.drop_last();
            lemma_last_count_is_last(rest, name);
            if exists|j: int| 0 <= j < stats.len() && stats[j].0 == name {
                let j0 = choose|j: int| 0 <= j < stats.len() && stats[j].0 == name;
                assert(rest[j0] == stats[j0]);
                let j = choose|j: int|
                    0 <= j < rest.len() && rest[j].0 == name && last_count(rest, name) == rest[j].1
                        && forall|k: int| j < k < rest.len() ==> rest[k].0 != name;
                assert(stats[j] == rest[j]);
                assert forall|k: int| j < k < stats.len() implies stats[k].0 != name by {
                    if k < n {
                        assert(rest[k] == stats[k]);
                    }
                }
            }
            assert forall|j: int| 0 <= j < rest.len() && (forall|i: int| 0 <= i < stats.len() ==> stats[i].0 != name)
                implies rest[j].0 != name by {
                assert(rest[j] == stats[j]);
            }
        } else {
            assert(stats[n].0 == name);
        }
    }
}

impl ProfileData {
    /// The result for `username` that the schema gives: followers from the last
    /// `Follows` statistic, following from the last `Friends` one (0 where absent).
    pub fn crawl_result(&self, username: String) -> (r: CrawlResult)
        ensures
            r.username == username,
            r.followers == last_count(statistics(*self), "Follows"@),
            r.following == last_count(statistics(*self), "Friends"@),
    {
        let stats = &self.main_entity.interaction_statistic;
        let ghost all = statistics(*self);
        let mut follows: u64 = 0;
        let mut friends: u64 = 0;
        proof {
            reveal_strlit("Follows");
            reveal_strlit("Friends");
            assert("Follows"@[1] != "Friends"@[1]);
        }
        for i in 0..stats.len()
            invariant
                all == statistics(*self),
                stats@ == self.main_entity.interaction_statistic@,
                all.len() == stats.len(),
                "Follows"@ != "Friends"@,
                follows == last_count(all.take(i as int), "Follows"@),
                friends == last_count(all.take(i as int), "Friends"@),
        {
            let stat = &stats[i];
            assert(all.take(i + 1).drop_last() == all.take(i as int));
            assert(all.take(i + 1).last() == (stat.name@, stat.count));
            if str_equals(stat.name.as_str(), "Follows") {
                follows = stat.count;
            } else if str_equals(stat.name.as_str(), "Friends") {
                friends = stat.count;
            }
        }
        assert(all.take(stats.len() as int) == all);
        CrawlResult::new(username, follows, friends)
    }
}

} // verus!
