//! What the alerts feed says, turned into the alerts of the sign.

use vstd::prelude::*;
use vstd::string::*;
use crate::alerts::{effect_priority, effect_priority_spec};
use crate::models::{alerts_view, contains_string, strings_view, Alert, AlertView};
use crate::strings::{split_whitespace, words_spec};
use crate::text::str_eq;

verus! {

/// The priority of an alert whose effect the feed does not give.
pub const DEFAULT_PRIORITY: i32 = 10;

/// One alert as the feed gives it.
#[derive(Debug)]
pub struct FeedAlert {
    /// The id of the feed entity.
    pub id: String,
    /// The routes of what the alert informs about, one entry for each
    /// thing informed about, whether it names a route or not.
    pub informed_routes: Vec<Option<String>>,
    /// The numeric code of the effect.
    pub effect: Option<i32>,
    /// The translations of the header, where the alert has a header.
    pub header: Option<Vec<String>>,
}

/// The mathematical value of a [`FeedAlert`].
pub struct FeedAlertView {
    pub id: Seq<char>,
    pub informed_routes: Seq<Option<Seq<char>>>,
    pub effect: Option<int>,
    pub header: Option<Seq<Seq<char>>>,
}

/// The routes of a list of entries, as values.
pub open spec fn informed_view(routes: Seq<Option<String>>) -> Seq<Option<Seq<char>>> {
    Seq::new(
        routes.len(),
        |i: int|
            match routes[i] {
                Some(r) => Some(r@),
                None => None,
            },
    )
}

impl View for FeedAlert {
    type V = FeedAlertView;

    open spec fn view(&self) -> FeedAlertView {
        FeedAlertView {
            id: self.id@,
            informed_routes: informed_view(self.informed_routes@),
            effect: match self.effect {
                Some(e) => Some(e as int),
                None => None,
            },
            header: match self.header {
                Some(h) => Some(strings_view(h@)),
                None => None,
            },
        }
    }
}

/// The feed alerts of a list, as values.
pub open spec fn feed_alerts_view(alerts: Seq<FeedAlert>) -> Seq<FeedAlertView> {
    Seq::new(alerts.len(), |i: int| alerts[i]@)
}

/// The watched routes that an alert informs about, each once, in the
/// order in which the alert first names them.
pub open spec fn relevant_routes(informed: Seq<Option<Seq<char>>>, routes: Seq<Seq<char>>) -> Seq<
    Seq<char>,
>
    decreases informed.len(),
{
    if informed.len() == 0 {
        Seq::empty()
    } else {
        let before = relevant_routes(informed.drop_last(), routes);
        match informed.last() {
            Some(r) => if routes.contains(r) && !before.contains(r) {
                before.push(r)
            } else {
                before
            },
            None => before,
        }
    }
}

/// The routes that are kept are watched routes that the alert informs
/// about, and none of them is kept twice.
pub proof fn lemma_relevant_routes(informed: Seq<Option<Seq<char>>>, routes: Seq<Seq<char>>)
    ensures
        relevant_routes(informed, routes).len() <= informed.len(),
        forall|i: int|
            0 <= i < relevant_routes(informed, routes).len() ==> routes.contains(
                #[trigger] relevant_routes(informed, routes)[i],
            ) && informed.contains(Some(relevant_routes(informed, routes)[i])),
        forall|i: int, j: int|
            0 <= i < j < relevant_routes(informed, routes).len() ==> #[trigger] relevant_routes(
                informed,
                routes,
            )[i] != #[trigger] relevant_routes(informed, routes)[j],
        forall|k: int|
            0 <= k < informed.len() && (#[trigger] informed[k]) is Some && routes.contains(
                informed[k]->0,
            ) ==> relevant_routes(informed, routes).contains(informed[k]->0),
    decreases informed.len(),
{
    if informed.len() > 0 {
        let front = informed.drop_last();
        let last = informed.last();
        lemma_relevant_routes(front, routes);
        let before = relevant_routes(front, routes);
        let out = relevant_routes(informed, routes);
        assert forall|i: int| 0 <= i < out.len() implies routes.contains(#[trigger] out[i])
            && informed.contains(Some(out[i])) by {
            if i < before.len() {
                assert(out[i] == before[i]);
                assert(front.contains(Some(before[i])));
                let k = choose|k: int| 0 <= k < front.len() && front[k] == Some(before[i]);
                assert(informed[k] == Some(out[i]));
            } else {
                assert(informed[informed.len() - 1] == Some(out[i]));
            }
        }
        assert forall|i: int, j: int| 0 <= i < j < out.len() implies #[trigger] out[i]
            != #[trigger] out[j] by {
            assert(out[i] == before[i]);
            if j < before.len() {
                assert(out[j] == before[j]);
            }
        }
        assert forall|k: int|
            0 <= k < informed.len() && (#[trigger] informed[k]) is Some && routes.contains(
                informed[k]->0,
            ) implies out.contains(informed[k]->0) by {
            if k < front.len() {
                assert(front[k] == informed[k]);
                assert(before.contains(informed[k]->0));
                let w = choose|w: int| 0 <= w < before.len() && before[w] == informed[k]->0;
                assert(out[w] == informed[k]->0);
            } else if before.contains(last->0) {
                let w = choose|w: int| 0 <= w < before.len() && before[w] == last->0;
                assert(out[w] == last->0);
            } else {
                assert(out[out.len() - 1] == last->0);
            }
        }
    }
}

/// Words put together with one blank between each two.
pub open spec fn joined(words: Seq<Seq<char>>) -> Seq<char>
    decreases words.len(),
{
    if words.len() == 0 {
        Seq::empty()
    } else if words.len() == 1 {
        words[0]
    } else {
        joined(words.drop_last()) + " "@ + words.last()
    }
}

/// A text with every run of white space made one blank, and none at its
/// start or end.
pub open spec fn clean_text(text: Seq<char>) -> Seq<char> {
    joined(words_spec(text))
}

/// The priority that goes with an effect, the lowest where the feed gives
/// no effect.
pub open spec fn priority_of(effect: Option<int>) -> int {
    match effect {
        Some(e) => effect_priority_spec(e),
        None => 10,
    }
}

/// The alert that a feed alert gives for the watched routes: none where it
/// informs about none of them, or where it has no header or the header no
/// translation; else the first translation, cleaned.
pub open spec fn alert_of(alert: FeedAlertView, routes: Seq<Seq<char>>) -> Option<AlertView> {
    let relevant = relevant_routes(alert.informed_routes, routes);
    if relevant.len() == 0 {
        None
    } else {
        match alert.header {
            Some(translations) => if translations.len() > 0 {
                Some(
                    AlertView {
                        text: clean_text(translations[0]),
                        affected_routes: relevant,
                        priority: priority_of(alert.effect),
                        alert_id: alert.id,
                    },
                )
            } else {
                None
            },
            None => None,
        }
    }
}

/// Whether one of the alerts has the given text.
pub open spec fn has_text(alerts: Seq<AlertView>, text: Seq<char>) -> bool {
    exists|i: int| 0 <= i < alerts.len() && (#[trigger] alerts[i]).text == text
}

/// The alerts that the first `n` alerts of a feed give for the watched
/// routes, in the order of the feed. Of alerts of one text only the first
/// is kept.
pub open spec fn alerts_of(feed: Seq<FeedAlertView>, routes: Seq<Seq<char>>, n: nat) -> Seq<
    AlertView,
>
    decreases n,
{
    if n == 0 || n > feed.len() {
        Seq::empty()
    } else {
        let before = alerts_of(feed, routes, (n - 1) as nat);
        match alert_of(feed[n - 1], routes) {
            Some(alert) => if has_text(before, alert.text) {
                before
            } else {
                before.push(alert)
            },
            None => before,
        }
    }
}

/// Puts words together with one blank between each two.
pub fn join_words(words: &Vec<String>) -> (text: String)
    ensures
        text@ == joined(strings_view(words@)),
{
    let ghost all = strings_view(words@);
    let mut text = String::new();
    let mut i: usize = 0;
    assert(all.take(0) =~= Seq::<Seq<char>>::empty());
    while i < words.len()
        invariant
            i <= words@.len(),
            all == strings_view(words@),
            text@ == joined(all.take(i as int)),
        decreases words@.len() - i,
    {
        proof {
            reveal_strlit(" ");
            assert(all.take(i + 1).drop_last() =~= all.take(i as int));
            assert(all.take(i + 1).last() == words@[i as int]@);
            if i == 0 {
                assert(all.take(1)[0] == words@[0]@);
                assert(Seq::<char>::empty() + words@[0]@ =~= words@[0]@);
            }
        }
        if i > 0 {
            text.append(" ");
        }
        text.append(words[i].as_str());
        i += 1;
    }
    assert(all.take(i as int) =~= all);
    text
}

/// Makes every run of white space in a text one blank, and takes it off
/// the start and the end.
pub fn clean_up(text: &str) -> (r: String)
    ensures
        r@ == clean_text(text@),
{
    let words = split_whitespace(text);
    join_words(&words)
}

/// The watched routes that an alert informs about, each once.
pub fn routes_informed(informed: &Vec<Option<String>>, routes: &Vec<String>) -> (relevant: Vec<
    String,
>)
    ensures
        strings_view(relevant@) == relevant_routes(informed_view(informed@), strings_view(routes@)),
{
    let ghost all = informed_view(informed@);
    let ghost watched = strings_view(routes@);
    let mut relevant: Vec<String> = Vec::new();
    let mut i: usize = 0;
    assert(all.take(0) =~= Seq::<Option<Seq<char>>>::empty());
    assert(strings_view(relevant@) =~= Seq::<Seq<char>>::empty());
    while i < informed.len()
        invariant
            i <= informed@.len(),
            all == informed_view(informed@),
            watched == strings_view(routes@),
            strings_view(relevant@) == relevant_routes(all.take(i as int), watched),
        decreases informed@.len() - i,
    {
        proof {
            assert(all.take(i + 1).drop_last() =~= all.take(i as int));
            assert(all.take(i + 1).last() == all[i as int]);
        }
        let ghost before = strings_view(relevant@);
        match &informed[i] {
            Some(route) => {
                if contains_string(routes, route.as_str()) && !contains_string(
                    &relevant,
                    route.as_str(),
                ) {
                    relevant.push(route.clone());
                    assert(strings_view(relevant@) =~= before.push(route@));
                }
            },
            None => {},
        }
        i += 1;
    }
    assert(all.take(i as int) =~= all);
    relevant
}

/// The alert that a feed alert gives for the watched routes.
pub fn alert_from(alert: &FeedAlert, routes: &Vec<String>) -> (r: Option<Alert>)
    ensures
        match r {
            Some(a) => alert_of(alert@, strings_view(routes@)) == Some(a@),
            None => alert_of(alert@, strings_view(routes@)) is None,
        },
{
    let relevant = routes_informed(&alert.informed_routes, routes);
    if relevant.len() == 0 {
        return None;
    }
    let priority = match alert.effect {
        Some(e) => effect_priority(e),
        None => DEFAULT_PRIORITY,
    };
    match &alert.header {
        Some(translations) => {
            if translations.len() > 0 {
                assert(strings_view(translations@)[0] == translations@[0]@);
                Some(
                    Alert {
                        text: clean_up(translations[0].as_str()),
                        affected_routes: relevant,
                        priority,
                        alert_id: alert.id.clone(),
                    },
                )
            } else {
                None
            }
        },
        None => None,
    }
}

/// The alerts that a feed gives for the watched routes.
pub fn alerts_of_feed(feed: &Vec<FeedAlert>, routes: &Vec<String>) -> (alerts: Vec<Alert>)
    ensures
        alerts_view(alerts@) == alerts_of(
            feed_alerts_view(feed@),
            strings_view(routes@),
            feed@.len(),
        ),
{
    let ghost all = feed_alerts_view(feed@);
    let ghost watched = strings_view(routes@);
    let mut alerts: Vec<Alert> = Vec::new();
    let mut i: usize = 0;
    assert(alerts_view(alerts@) =~= Seq::<AlertView>::empty());
    while i < feed.len()
        invariant
            i <= feed@.len(),
            all == feed_alerts_view(feed@),
            watched == strings_view(routes@),
            alerts_view(alerts@) == alerts_of(all, watched, i as nat),
        decreases feed@.len() - i,
    {
        assert(all[i as int] == feed@[i as int]@);
        let ghost before = alerts_view(alerts@);
        match alert_from(&feed[i], routes) {
            Some(alert) => {
                let mut seen = false;
                let mut j: usize = 0;
                while j < alerts.len()
                    invariant
                        j <= alerts@.len(),
                        before == alerts_view(alerts@),
                        seen <==> exists|k: int|
                            0 <= k < j && (#[trigger] before[k]).text == alert@.text,
                    decreases alerts@.len() - j,
                {
                    assert(before[j as int] == alerts@[j as int]@);
                    if str_eq(alerts[j].text.as_str(), alert.text.as_str()) {
                        seen = true;
                    }
                    j += 1;
                }
                assert(seen == has_text(before, alert@.text));
                if !seen {
                    let ghost value = alert@;
                    alerts.push(alert);
                    assert(alerts_view(alerts@) =~= before.push(value));
                }
            },
            None => {},
        }
        i += 1;
    }
    alerts
}

} // verus!
