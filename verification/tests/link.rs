use riftbound_events::link::{event_in_link, LinkError};
use riftbound_events::text::NumberError;

#[test]
fn links_name_their_event() {
    for link in [
        "https://locator.riftbound.uvsgames.com/events/12345",
        "http://locator.riftbound.uvsgames.com/events/12345",
        "locator.riftbound.uvsgames.com/events/12345",
        "https://locator.riftbound.uvsgames.com/events/12345/",
        "https://locator.riftbound.uvsgames.com/events/12345/standings?x=1",
        "see https://locator.riftbound.uvsgames.com/events/12345/ please",
        "ftp://locator.riftbound.uvsgames.com/events/12345",
        "https://locator.riftbound.uvsgames.com/events/+12345",
    ] {
        assert_eq!(event_in_link(link), Ok(12345), "{link}");
    }
}

#[test]
fn any_character_may_stand_for_a_dot() {
    assert_eq!(event_in_link("locator-riftbound_uvsgamesécom/events/7"), Ok(7));
    assert_eq!(
        event_in_link("locator\nriftbound.uvsgames.com/events/7"),
        Err(LinkError::NoLink)
    );
}

#[test]
fn the_first_link_counts() {
    let first = "locator.riftbound.uvsgames.com/events/1";
    let second = "https://locator.riftbound.uvsgames.com/events/2";
    assert_eq!(event_in_link(&format!("{first}/{second}")), Ok(1));
    assert_eq!(event_in_link(&format!("{second}/{first}")), Ok(2));
    assert_eq!(
        event_in_link(&format!("locator.riftbound.{first}")),
        Ok(1)
    );
}

#[test]
fn other_texts_are_no_links() {
    for text in [
        "",
        "12345",
        "https://example.net/events/12345",
        "https://locator.riftbound.uvsgames.com/event/12345",
        "https://LOCATOR.riftbound.uvsgames.com/events/12345",
    ] {
        assert_eq!(event_in_link(text), Err(LinkError::NoLink), "{text}");
    }
    assert_eq!(
        LinkError::NoLink.message(),
        "Could not parse provided tournament url"
    );
}

#[test]
fn links_to_something_else_than_a_number() {
    for link in [
        "https://locator.riftbound.uvsgames.com/events/abc",
        "https://locator.riftbound.uvsgames.com/events/12345?x=1",
        "https://locator.riftbound.uvsgames.com/events/5 ",
        "https://locator.riftbound.uvsgames.com/events/5\n",
        "https://locator.riftbound.uvsgames.com/events/-5",
    ] {
        assert_eq!(
            event_in_link(link),
            Err(LinkError::NotANumber(NumberError::InvalidDigit)),
            "{link}"
        );
    }
    for link in [
        "https://locator.riftbound.uvsgames.com/events/",
        "https://locator.riftbound.uvsgames.com/events//5",
    ] {
        assert_eq!(
            event_in_link(link),
            Err(LinkError::NotANumber(NumberError::Empty)),
            "{link}"
        );
    }
    assert_eq!(
        event_in_link("https://locator.riftbound.uvsgames.com/events/4294967296"),
        Err(LinkError::NotANumber(NumberError::PosOverflow))
    );
}

#[test]
fn the_reason_lies_below_the_message() {
    let error = LinkError::NotANumber(NumberError::PosOverflow);
    assert_eq!(error.message(), "event id is not a number");
    assert_eq!(
        error.cause(),
        Some("number too large to fit in target type".to_string())
    );
    assert_eq!(LinkError::NoLink.cause(), None);
}

#[test]
fn the_largest_event_can_be_named() {
    assert_eq!(
        event_in_link("locator.riftbound.uvsgames.com/events/4294967295"),
        Ok(u32::MAX)
    );
}
