use riftbound_events::pagination::{Matches, Paginated, Standings};
use riftbound_events::urls::{
    deck_url, event_url, matches_url, registrations, standings_url, tournament_rounds_url,
    AddressError, API_URL,
};

fn below(path: &str) -> String {
    format!("{API_URL}{path}")
}

#[test]
fn event_address_is_below_the_root() {
    assert_eq!(
        event_url(17),
        "https://api.cloudflare.riftbound.uvsgames.com/hydraproxy/api/v2/events/17/"
    );
    assert_eq!(event_url(0), below("events/0/"));
    assert_eq!(event_url(u32::MAX), below("events/4294967295/"));
}

#[test]
fn registrations_are_below_their_event() {
    assert_eq!(registrations(305), below("events/305/registrations/"));
}

#[test]
fn rounds_are_below_the_root() {
    assert_eq!(tournament_rounds_url(9), below("tournament-rounds/9/"));
}

#[test]
fn deck_address_appends_a_plain_id() {
    assert_eq!(deck_url("a1-b2_C3"), Ok(below("deckbuilder/decks/a1-b2_C3")));
    assert_eq!(deck_url(""), Ok(below("deckbuilder/decks/")));
}

#[test]
fn deck_address_is_joined_like_any_reference() {
    assert_eq!(deck_url("../x y"), Ok(below("deckbuilder/x%20y")));
    assert_eq!(deck_url("http://example.net/d"), Ok("http://example.net/d".to_string()));
}

#[test]
fn deck_address_can_be_invalid() {
    assert_eq!(deck_url("https://"), Err(AddressError::EmptyHost));
    assert_eq!(deck_url("http://[1"), Err(AddressError::InvalidIpv6Address));
    assert_eq!(deck_url("http://1.2.3.256/"), Err(AddressError::InvalidIpv4Address));
    assert_eq!(deck_url("http://a:99999/"), Err(AddressError::InvalidPort));
    assert_eq!(deck_url("http://a b/"), Err(AddressError::IdnaError));
}

#[test]
fn deck_addresses_are_refused_for_the_reason_that_joining_gives() {
    let base = url::Url::parse(&below("deckbuilder/decks/")).unwrap();
    for id in ["https://", "http://[1", "//1.2.3.256", "//a:b", "http://a b/", "//%zz", "//[::1"] {
        let kind = base.join(id).unwrap_err();
        assert_eq!(format!("{:?}", deck_url(id).unwrap_err()), format!("{kind:?}"), "{id}");
    }
}

#[test]
fn matches_address_without_a_player() {
    assert_eq!(
        matches_url(4, 500, 2, None),
        below("tournament-rounds/4/matches/paginated/?page_size=500&page=2")
    );
}

#[test]
fn matches_address_encodes_the_player() {
    assert_eq!(
        matches_url(4, 1, 1, Some("Zoé & Co*-._/+~")),
        below(
            "tournament-rounds/4/matches/paginated/\
             ?page_size=1&page=1&player_name=Zo%C3%A9+%26+Co*-._%2F%2B%7E"
        )
    );
}

#[test]
fn standings_address_with_and_without_a_player() {
    assert_eq!(
        standings_url(12, 20, 1, None),
        below("tournament-rounds/12/standings/paginated/?page_size=20&page=1")
    );
    assert_eq!(
        standings_url(12, 20, 1, Some("")),
        below("tournament-rounds/12/standings/paginated/?page_size=20&page=1&player_name=")
    );
}

#[test]
fn pages_of_lists_name_no_player() {
    assert_eq!(Standings::page_url(3, 7, 5), standings_url(3, 7, 5, None));
    assert_eq!(Matches::page_url(3, 7, 5), matches_url(3, 7, 5, None));
}

#[test]
fn different_requests_have_different_addresses() {
    let all = vec![
        event_url(1),
        event_url(11),
        standings_url(1, 11, 1, None),
        standings_url(1, 1, 11, None),
        standings_url(1, 1, 1, Some("a&page=2")),
        standings_url(1, 1, 1, Some("a")),
        standings_url(11, 1, 1, Some("a")),
        matches_url(1, 1, 1, Some("a")),
        matches_url(1, 1, 1, Some("a b")),
        matches_url(1, 1, 1, Some("a+b")),
        matches_url(1, 1, 1, None),
    ];
    for (i, a) in all.iter().enumerate() {
        for b in &all[i + 1..] {
            assert_ne!(a, b);
        }
    }
}
