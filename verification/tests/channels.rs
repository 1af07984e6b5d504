use riftbound_events::channels::{ChannelData, CommandError, Data, GuildData};
use riftbound_events::link::LinkError;
use riftbound_events::text::NumberError;

const LINK: &str = "https://locator.riftbound.uvsgames.com/events/";

fn follow(data: &mut Data, guild: Option<u64>, channel: u64, event: u32) {
    let reply = data.current_event(guild, channel, &format!("{LINK}{event}"));
    assert_eq!(reply, Ok(format!("Tournament: {:?}", Some(event))));
}

#[test]
fn nothing_is_known_at_first() {
    let data = Data::default();
    assert!(data.guilds.is_empty());
    assert_eq!(data.channel_data(Some(1), 2), None);
    assert_eq!(data.configured_event(Some(1), 2), Err(CommandError::NoEvent));
    assert_eq!(CommandError::NoEvent.message(), "No event configured");
    assert!(GuildData::default().channels.is_empty());
}

#[test]
fn a_followed_event_is_remembered() {
    let mut data = Data::default();
    follow(&mut data, Some(1), 2, 77);
    assert_eq!(data.configured_event(Some(1), 2), Ok(77));
    follow(&mut data, Some(1), 2, 78);
    assert_eq!(data.configured_event(Some(1), 2), Ok(78));
}

#[test]
fn channels_do_not_disturb_each_other() {
    let mut data = Data::default();
    follow(&mut data, Some(1), 2, 10);
    follow(&mut data, Some(1), 3, 11);
    follow(&mut data, Some(4), 2, 12);
    follow(&mut data, None, 2, 13);
    assert_eq!(data.configured_event(Some(1), 2), Ok(10));
    assert_eq!(data.configured_event(Some(1), 3), Ok(11));
    assert_eq!(data.configured_event(Some(4), 2), Ok(12));
    assert_eq!(data.configured_event(None, 2), Ok(13));
    assert_eq!(data.configured_event(None, 3), Err(CommandError::NoEvent));
}

#[test]
fn a_useless_link_keeps_the_event() {
    let mut data = Data::default();
    follow(&mut data, Some(1), 2, 10);
    assert_eq!(
        data.current_event(Some(1), 2, "nothing"),
        Err(LinkError::NoLink)
    );
    assert_eq!(
        data.current_event(Some(1), 2, &format!("{LINK}x")),
        Err(LinkError::NotANumber(NumberError::InvalidDigit))
    );
    assert_eq!(data.configured_event(Some(1), 2), Ok(10));
}

#[test]
fn a_useless_link_still_makes_the_channel_known() {
    let mut data = Data::default();
    assert_eq!(
        data.current_event(Some(1), 2, "nothing"),
        Err(LinkError::NoLink)
    );
    assert_eq!(
        data.channel_data(Some(1), 2),
        Some(&ChannelData { current_event: None })
    );
    assert_eq!(data.configured_event(Some(1), 2), Err(CommandError::NoEvent));
}

#[test]
fn asking_for_a_channel_makes_it_known() {
    let mut data = Data::default();
    assert_eq!(data.channel_data_mut(None, 5), &mut ChannelData::default());
    assert_eq!(data.channel_data(None, 5), Some(&ChannelData::default()));
    follow(&mut data, None, 5, 9);
    assert_eq!(
        data.channel_data_mut(None, 5),
        &mut ChannelData { current_event: Some(9) }
    );
}

#[test]
fn what_is_left_for_a_channel_is_read_back() {
    let mut data = Data::default();
    data.channel_data_mut(Some(1), 2).current_event = Some(7);
    data.channel_data_mut(Some(1), 3).current_event = Some(8);
    assert_eq!(
        data.channel_data(Some(1), 2),
        Some(&ChannelData { current_event: Some(7) })
    );
    assert_eq!(data.configured_event(Some(1), 3), Ok(8));
    *data.channel_data_mut(Some(1), 2) = ChannelData { current_event: None };
    assert_eq!(data.configured_event(Some(1), 2), Err(CommandError::NoEvent));
    assert_eq!(data.configured_event(Some(1), 3), Ok(8));
    assert_eq!(data.guilds.len(), 1);
}

#[test]
fn leaving_a_known_channel_as_it_is_changes_nothing() {
    let mut data = Data::default();
    follow(&mut data, Some(1), 2, 10);
    let before = format!("{data:?}");
    data.channel_data_mut(Some(1), 2);
    assert_eq!(format!("{data:?}"), before);
}
