//! Which feed carries the arrivals of which route.

use vstd::prelude::*;
use vstd::string::*;
use crate::text::str_eq;

verus! {

/// The address that all arrival feeds start with.
pub const MTA_FEED_BASE_URL: &'static str =
    "https://api-endpoint.mta.info/Dataservice/mtagtfsfeeds/nyct%2Fgtfs";

/// The ending of the feed address for a route, `None` for a route that no
/// feed carries.
pub open spec fn feed_id_spec(route: Seq<char>) -> Option<Seq<char>> {
    if route == "1"@ || route == "2"@ || route == "3"@ || route == "4"@ || route == "5"@ || route
        == "6"@ || route == "GS"@ {
        Some(""@)
    } else if route == "A"@ || route == "C"@ || route == "E"@ {
        Some("-ace"@)
    } else if route == "B"@ || route == "D"@ || route == "F"@ || route == "M"@ {
        Some("-bdfm"@)
    } else if route == "G"@ {
        Some("-g"@)
    } else if route == "J"@ || route == "Z"@ {
        Some("-jz"@)
    } else if route == "N"@ || route == "Q"@ || route == "R"@ || route == "W"@ {
        Some("-nqrw"@)
    } else if route == "L"@ {
        Some("-l"@)
    } else if route == "7"@ {
        Some("-7"@)
    } else if route == "SI"@ || route == "SIR"@ {
        Some("-si"@)
    } else {
        None
    }
}

/// The ending of the feed address for a route.
pub fn feed_id_for_route(route: &str) -> (id: Option<&'static str>)
    ensures
        match id {
            Some(suffix) => feed_id_spec(route@) == Some(suffix@),
            None => feed_id_spec(route@) is None,
        },
{
    if str_eq(route, "1") || str_eq(route, "2") || str_eq(route, "3") || str_eq(route, "4")
        || str_eq(route, "5") || str_eq(route, "6") || str_eq(route, "GS") {
        Some("")
    } else if str_eq(route, "A") || str_eq(route, "C") || str_eq(route, "E") {
        Some("-ace")
    } else if str_eq(route, "B") || str_eq(route, "D") || str_eq(route, "F") || str_eq(route, "M") {
        Some("-bdfm")
    } else if str_eq(route, "G") {
        Some("-g")
    } else if str_eq(route, "J") || str_eq(route, "Z") {
        Some("-jz")
    } else if str_eq(route, "N") || str_eq(route, "Q") || str_eq(route, "R") || str_eq(route, "W") {
        Some("-nqrw")
    } else if str_eq(route, "L") {
        Some("-l")
    } else if str_eq(route, "7") {
        Some("-7")
    } else if str_eq(route, "SI") || str_eq(route, "SIR") {
        Some("-si")
    } else {
        None
    }
}

/// The feed address for a route: the common start and the route's ending.
pub open spec fn feed_url_spec(route: Seq<char>) -> Option<Seq<char>> {
    match feed_id_spec(route) {
        Some(suffix) => Some(MTA_FEED_BASE_URL@ + suffix),
        None => None,
    }
}

/// The feed address for a route.
pub fn feed_url_for_route(route: &str) -> (url: Option<String>)
    ensures
        match url {
            Some(u) => feed_url_spec(route@) == Some(u@),
            None => feed_url_spec(route@) is None,
        },
{
    match feed_id_for_route(route) {
        Some(suffix) => {
            let mut url = String::from_str(MTA_FEED_BASE_URL);
            url.append(suffix);
            Some(url)
        },
        None => None,
    }
}

/// The feed addresses needed for a list of routes: the address of each
/// route that has one, in the order of the routes, each address once.
pub open spec fn feed_urls_spec(routes: Seq<Seq<char>>) -> Seq<Seq<char>>
    decreases routes.len(),
{
    if routes.len() == 0 {
        Seq::empty()
    } else {
        let before = feed_urls_spec(routes.drop_last());
        match feed_url_spec(routes.last()) {
            Some(url) => if before.contains(url) {
                before
            } else {
                before.push(url)
            },
            None => before,
        }
    }
}

/// The feed addresses needed for a list of routes.
pub fn feed_urls_for_routes(routes: &[String]) -> (urls: Vec<String>)
    ensures
        crate::models::strings_view(urls@) == feed_urls_spec(crate::models::strings_view(routes@)),
{
    let ghost all = crate::models::strings_view(routes@);
    let mut urls: Vec<String> = Vec::new();
    let mut i: usize = 0;
    assert(all.take(0) =~= Seq::<Seq<char>>::empty());
    assert(crate::models::strings_view(urls@) =~= Seq::<Seq<char>>::empty());
    while i < routes.len()
        invariant
            i <= routes@.len(),
            all == crate::models::strings_view(routes@),
            crate::models::strings_view(urls@) == feed_urls_spec(all.take(i as int)),
        decreases routes@.len() - i,
    {
        proof {
            assert(all.take(i + 1).drop_last() =~= all.take(i as int));
            assert(all.take(i + 1).last() == routes@[i as int]@);
        }
        let ghost before = crate::models::strings_view(urls@);
        match feed_url_for_route(routes[i].as_str()) {
            Some(url) => {
                let mut seen = false;
                let mut j: usize = 0;
                while j < urls.len()
                    invariant
                        j <= urls@.len(),
                        before == crate::models::strings_view(urls@),
                        seen <==> exists|k: int| 0 <= k < j && before[k] == url@,
                    decreases urls@.len() - j,
                {
                    if str_eq(urls[j].as_str(), url.as_str()) {
                        assert(before[j as int] == url@);
                        seen = true;
                    }
                    j += 1;
                }
                assert(seen == before.contains(url@));
                if !seen {
                    urls.push(url);
                    assert(crate::models::strings_view(urls@) =~= before.push(url@));
                }
            },
            None => {},
        }
        i += 1;
    }
    assert(all.take(i as int) =~= all);
    urls
}

} // verus!
