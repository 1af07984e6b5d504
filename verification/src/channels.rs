//! The event that each channel follows.
use crate::link::{event_in_link, linked_event, LinkError};
use crate::text::{
    decimal, decimal_text, law_decimal_is_injective, law_decimal_is_short, law_decimal_reads_back,
    number_in,
};
use std::collections::BTreeMap;
use vstd::laws_cmp::obeys_cmp;
use vstd::prelude::*;

verus! {

/// Why a command cannot be carried out.
#[derive(Clone, Copy, Debug, PartialEq, Eq, Structural)]
pub enum CommandError {
    /// The channel follows no event.
    NoEvent,
    /// No phase of the event has begun and has a complete round.
    NoPhase,
    /// The phase has no complete round.
    NoRound,
}

impl CommandError {
    pub open spec fn text(self) -> Seq<char> {
        match self {
            CommandError::NoEvent => "No event configured"@,
            CommandError::NoPhase => "No candidate phase found"@,
            CommandError::NoRound => "No complete round found"@,
        }
    }

    /// What the user is told.
    pub fn message(&self) -> (message: String)
        ensures
            message@ == self.text(),
    {
        match self {
            CommandError::NoEvent => "No event configured".to_owned(),
            CommandError::NoPhase => "No candidate phase found".to_owned(),
            CommandError::NoRound => "No complete round found".to_owned(),
        }
    }
}

/// What is known of a channel.
#[derive(Clone, Copy, Debug, PartialEq, Eq, Structural)]
pub struct ChannelData {
    pub current_event: Option<u32>,
}

impl Default for ChannelData {
    fn default() -> (data: Self)
        ensures
            data.current_event is None,
    {
        ChannelData { current_event: None }
    }
}

/// The channels of a guild, by their number.
#[derive(Debug)]
pub struct GuildData {
    pub channels: BTreeMap<u64, ChannelData>,
}

impl Default for GuildData {
    fn default() -> (data: Self)
        ensures
            data.channels@ == Map::<u64, ChannelData>::empty(),
    {
        GuildData { channels: BTreeMap::new() }
    }
}

/// The guilds, by their number; channels outside of any guild are kept under no number.
#[derive(Debug)]
pub struct Data {
    pub guilds: BTreeMap<Option<u64>, GuildData>,
}

/// What is known of the channels of each guild.
pub type Registry = Map<Option<u64>, Map<u64, ChannelData>>;

impl View for Data {
    type V = Registry;

    open spec fn view(&self) -> Registry {
        self.guilds@.map_values(|guild: GuildData| guild.channels@)
    }
}

/// What is known of a channel, if anything.
pub open spec fn channel_in(registry: Registry, guild: Option<u64>, channel: u64) -> Option<
    ChannelData,
> {
    if registry.contains_key(guild) && registry[guild].contains_key(channel) {
        Some(registry[guild][channel])
    } else {
        None
    }
}

/// The registry with `data` for one channel.
pub open spec fn with_channel(
    registry: Registry,
    guild: Option<u64>,
    channel: u64,
    data: ChannelData,
) -> Registry {
    let channels = if registry.contains_key(guild) {
        registry[guild]
    } else {
        Map::empty()
    };
    registry.insert(guild, channels.insert(channel, data))
}

/// What is known of a channel; of one that is not known, that it follows no event.
pub open spec fn known_or_new(registry: Registry, guild: Option<u64>, channel: u64) -> ChannelData {
    match channel_in(registry, guild, channel) {
        Some(known) => known,
        None => ChannelData { current_event: None },
    }
}

/// The registry after a channel has been told to follow the event of `link`.  A channel that was
/// not known is known from then on, even where the link is of no use.
pub open spec fn following(
    registry: Registry,
    guild: Option<u64>,
    channel: u64,
    link: Seq<char>,
) -> Registry {
    let data = match linked_event(link) {
        Ok(event) => ChannelData { current_event: Some(event) },
        Err(_) => known_or_new(registry, guild, channel),
    };
    with_channel(registry, guild, channel, data)
}

/// The event that a channel follows, if any.
pub open spec fn followed_event(registry: Registry, guild: Option<u64>, channel: u64) -> Option<
    u32,
> {
    match channel_in(registry, guild, channel) {
        Some(data) => data.current_event,
        None => None,
    }
}

/// What the bot answers once a channel follows an event.
pub open spec fn following_reply(event: u32) -> Seq<char> {
    "Tournament: Some("@ + decimal(event as nat) + ")"@
}

/// `BTreeMap::get_mut`: a mutable reference to the value of a key.  What is left there is the
/// value of that key afterwards, and nothing else changes.
#[verifier::external_body]
fn value_mut<'a, K: Ord, V>(map: &'a mut BTreeMap<K, V>, key: &K) -> (value: Option<&'a mut V>)
    requires
        obeys_cmp::<K>(),
    ensures
        match value {
            Some(found) => {
                &&& old(map)@.contains_pair(*key, *found)
                &&& final(map)@ == old(map)@.insert(*key, *final(found))
            },
            None => {
                &&& !old(map)@.contains_key(*key)
                &&& final(map)@ == old(map)@
            },
        },
{
    map.get_mut(key)
}

broadcast use vstd::laws_cmp::group_laws_cmp;

impl Default for Data {
    fn default() -> (data: Self)
        ensures
            data@ == Registry::empty(),
    {
        let data = Data { guilds: BTreeMap::new() };
        assert(data@ =~= Registry::empty());
        data
    }
}

impl Data {
    /// What is known of a channel, if anything.
    pub fn channel_data(&self, guild: Option<u64>, channel: u64) -> (data: Option<&ChannelData>)
        ensures
            data == (match channel_in(self@, guild, channel) {
                Some(known) => Some(&known),
                None => None,
            }),
    {
        match self.guilds.get(&guild) {
            Some(known) => known.channels.get(&channel),
            None => None,
        }
    }

    /// What is known of a channel, to be changed in place.  A channel that was not known is from
    /// now on, and follows no event.
    pub fn channel_data_mut(&mut self, guild: Option<u64>, channel: u64) -> (data: &mut ChannelData)
        ensures
            *data == known_or_new(old(self)@, guild, channel),
            final(self)@ == with_channel(old(self)@, guild, channel, *final(data)),
    {
        if !self.guilds.contains_key(&guild) {
            self.guilds.insert(guild, GuildData::default());
        }
        let known = match value_mut(&mut self.guilds, &guild) {
            Some(known) => known,
            None => vstd::pervasive::unreached(),
        };
        if !known.channels.contains_key(&channel) {
            let ghost channels = known.channels@;
            let new = ChannelData::default();
            known.channels.insert(channel, new);
            assert forall|data: ChannelData| #[trigger]
                channels.insert(channel, new).insert(channel, data) == channels.insert(
                channel,
                data,
            ) by {
                assert(channels.insert(channel, new).insert(channel, data) =~= channels.insert(
                    channel,
                    data,
                ));
            }
        }
        match value_mut(&mut known.channels, &channel) {
            Some(data) => data,
            None => vstd::pervasive::unreached(),
        }
    }

    /// Makes a channel follow the event that `event_url` links to, and says so.
    pub fn current_event(&mut self, guild: Option<u64>, channel: u64, event_url: &str) -> (reply:
        Result<String, LinkError>)
        ensures
            final(self)@ == following(old(self)@, guild, channel, event_url@),
            match reply {
                Ok(text) => linked_event(event_url@) matches Ok(event) && text@ == following_reply(
                    event,
                ),
                Err(e) => linked_event(event_url@) == Err::<u32, LinkError>(e),
            },
    {
        let data = self.channel_data_mut(guild, channel);
        match event_in_link(event_url) {
            Ok(event) => {
                data.current_event = Some(event);
                let number = decimal_text(event as u64);
                Ok("Tournament: Some(".to_owned().concat(number.as_str()).concat(")"))
            },
            Err(e) => Err(e),
        }
    }

    /// The event that a channel follows; an error where it follows none.
    pub fn configured_event(&self, guild: Option<u64>, channel: u64) -> (event: Result<
        u32,
        CommandError,
    >)
        ensures
            event == (match followed_event(self@, guild, channel) {
                Some(id) => Ok(id),
                None => Err(CommandError::NoEvent),
            }),
    {
        match self.channel_data(guild, channel) {
            Some(data) => match data.current_event {
                Some(id) => Ok(id),
                None => Err(CommandError::NoEvent),
            },
            None => Err(CommandError::NoEvent),
        }
    }
}

/// What was left for a channel is what is known of it, and of no other channel anything
/// changes.
pub proof fn law_data_reads_back(
    registry: Registry,
    guild: Option<u64>,
    channel: u64,
    data: ChannelData,
    other_guild: Option<u64>,
    other_channel: u64,
)
    ensures
        channel_in(with_channel(registry, guild, channel, data), guild, channel) == Some(data),
        other_guild != guild || other_channel != channel ==> channel_in(
            with_channel(registry, guild, channel, data),
            other_guild,
            other_channel,
        ) == channel_in(registry, other_guild, other_channel),
{
}

/// Leaving a known channel as it is changes nothing.
pub proof fn law_unchanged_data_changes_nothing(
    registry: Registry,
    guild: Option<u64>,
    channel: u64,
)
    requires
        channel_in(registry, guild, channel) is Some,
    ensures
        with_channel(registry, guild, channel, known_or_new(registry, guild, channel)) == registry,
{
    let same = with_channel(registry, guild, channel, known_or_new(registry, guild, channel));
    assert(same[guild] =~= registry[guild]);
    assert(same =~= registry);
}

/// A channel that was told to follow an event follows it.
pub proof fn law_link_is_followed(
    registry: Registry,
    guild: Option<u64>,
    channel: u64,
    link: Seq<char>,
)
    ensures
        linked_event(link) matches Ok(event) ==> followed_event(
            following(registry, guild, channel, link),
            guild,
            channel,
        ) == Some(event),
{
}

/// A link that is of no use changes no channel's event.
pub proof fn law_useless_link_changes_no_event(
    registry: Registry,
    guild: Option<u64>,
    channel: u64,
    link: Seq<char>,
    other_guild: Option<u64>,
    other_channel: u64,
)
    requires
        linked_event(link) is Err,
    ensures
        followed_event(following(registry, guild, channel, link), other_guild, other_channel)
            == followed_event(registry, other_guild, other_channel),
{
}

/// What one channel is told concerns no other channel, of the same guild or of another.
pub proof fn law_other_channels_are_untouched(
    registry: Registry,
    guild: Option<u64>,
    channel: u64,
    link: Seq<char>,
    other_guild: Option<u64>,
    other_channel: u64,
)
    requires
        other_guild != guild || other_channel != channel,
    ensures
        channel_in(following(registry, guild, channel, link), other_guild, other_channel)
            == channel_in(registry, other_guild, other_channel),
{
}

/// What is known of the channels is what the guilds hold, each under its own number.
pub proof fn law_registry_is_what_the_guilds_hold(data: Data)
    ensures
        data@.dom() == data.guilds@.dom(),
        forall|guild: Option<u64>|
            data.guilds@.contains_key(guild) ==> #[trigger] data@[guild]
                == data.guilds@[guild].channels@,
{
    assert(data@.dom() =~= data.guilds@.dom());
}

/// Something is known of a channel where its guild is known and holds it, and then it is what
/// the guild holds; its event is the one that is followed.
pub proof fn law_channel_is_found_in_its_guild(
    registry: Registry,
    guild: Option<u64>,
    channel: u64,
    data: ChannelData,
)
    ensures
        channel_in(registry, guild, channel) == Some(data) <==> registry.contains_key(guild)
            && registry[guild].contains_pair(channel, data),
        channel_in(registry, guild, channel) == Some(data) ==> {
            &&& known_or_new(registry, guild, channel) == data
            &&& followed_event(registry, guild, channel) == data.current_event
        },
        channel_in(registry, guild, channel) is None ==> {
            &&& known_or_new(registry, guild, channel).current_event is None
            &&& followed_event(registry, guild, channel) is None
        },
{
}

/// What is left for a channel stands under its guild and its number, and everything else stays
/// where it was; a guild that was not known holds that channel alone.
pub proof fn law_data_stands_under_its_channel(
    registry: Registry,
    guild: Option<u64>,
    channel: u64,
    data: ChannelData,
)
    ensures
        ({
            let after = with_channel(registry, guild, channel, data);
            &&& after.dom() == registry.dom().insert(guild)
            &&& forall|other: Option<u64>|
                other != guild && registry.contains_key(other) ==> #[trigger] after[other]
                    == registry[other]
            &&& registry.contains_key(guild) ==> after[guild] == registry[guild].insert(
                channel,
                data,
            )
            &&& !registry.contains_key(guild) ==> after[guild] == Map::<
                u64,
                ChannelData,
            >::empty().insert(channel, data)
        }),
{
    assert(with_channel(registry, guild, channel, data).dom() =~= registry.dom().insert(guild));
}

/// The answer names the event that the channel now follows: between its fixed parts stands the
/// number of that event, which reads back.
pub proof fn law_answer_names_the_followed_event(
    registry: Registry,
    guild: Option<u64>,
    channel: u64,
    link: Seq<char>,
    event: u32,
)
    requires
        linked_event(link) == Ok::<u32, LinkError>(event),
    ensures
        ({
            let after = following(registry, guild, channel, link);
            let reply = following_reply(event);
            let end = reply.len() - 1;
            &&& after.contains_key(guild)
            &&& after[guild].contains_key(channel)
            &&& after[guild][channel].current_event == Some(event)
            &&& end > 17
            &&& reply.take(17) == "Tournament: Some("@
            &&& number_in(reply.subrange(17, end)) == Some(event as nat)
            &&& reply.subrange(17, end) == decimal(event as nat)
            &&& reply[end] == ')'
        }),
{
    let reply = following_reply(event);
    reveal_strlit("Tournament: Some(");
    reveal_strlit(")");
    law_decimal_reads_back(event as nat);
    law_decimal_is_short(event as nat);
    assert(reply.take(17) =~= "Tournament: Some("@);
    assert(reply.subrange(17, reply.len() - 1) =~= decimal(event as nat));
}

/// Two events never get the same answer.
pub proof fn law_events_have_their_own_answer(event: u32, other: u32)
    requires
        following_reply(event) == following_reply(other),
    ensures
        event == other,
{
    let reply = following_reply(event);
    reveal_strlit("Tournament: Some(");
    reveal_strlit(")");
    assert(reply.subrange(17, reply.len() - 1) =~= decimal(event as nat));
    assert(reply.subrange(17, reply.len() - 1) =~= decimal(other as nat));
    law_decimal_is_injective(event as nat, other as nat);
}

/// A link that is of no use leaves what was known of the channel; a channel that was not known
/// is known from then on and follows nothing.
pub proof fn law_useless_link_leaves_the_channel(
    registry: Registry,
    guild: Option<u64>,
    channel: u64,
    link: Seq<char>,
)
    requires
        linked_event(link) is Err,
    ensures
        ({
            let after = following(registry, guild, channel, link);
            &&& after.contains_key(guild)
            &&& after[guild].contains_key(channel)
            &&& after[guild][channel] == if registry.contains_key(guild)
                && registry[guild].contains_key(channel) {
                registry[guild][channel]
            } else {
                ChannelData { current_event: None }
            }
        }),
{
}

} // verus!
