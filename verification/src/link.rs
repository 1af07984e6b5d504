//! Links to events, as users paste them.
use crate::text::{
    decimal, find_from, law_decimal_reads_back, lemma_decimal_digits, lemma_find_from, number_read,
    parse_number, NumberError,
};
use regex::Regex;
use vstd::prelude::*;

verus! {

/// The links that name an event.
pub const EVENT_PATTERN: &'static str =
    r"(https?://)?locator.riftbound.uvsgames.com/events/(?<id>[^/]*)";

/// The group of the pattern that holds the number of the event.
pub const ID_GROUP: &'static str = "id";

/// Why a text names no event.
#[derive(Clone, Copy, Debug, PartialEq, Eq, Structural)]
pub enum LinkError {
    /// There is no link to an event in it.
    NoLink,
    /// What the link names is not the number of an event, for this reason.
    NotANumber(NumberError),
}

impl LinkError {
    pub open spec fn text(self) -> Seq<char> {
        match self {
            LinkError::NoLink => "Could not parse provided tournament url"@,
            LinkError::NotANumber(_) => "event id is not a number"@,
        }
    }

    /// What the user is told.
    pub fn message(&self) -> (message: String)
        ensures
            message@ == self.text(),
    {
        match self {
            LinkError::NoLink => "Could not parse provided tournament url".to_owned(),
            LinkError::NotANumber(_) => "event id is not a number".to_owned(),
        }
    }

    pub open spec fn cause_text(self) -> Option<Seq<char>> {
        match self {
            LinkError::NoLink => None,
            LinkError::NotANumber(reason) => Some(reason.text()),
        }
    }

    /// What lies below the message, if anything.
    pub fn cause(&self) -> (cause: Option<String>)
        ensures
            match self.cause_text() {
                Some(text) => cause matches Some(told) && told@ == text,
                None => cause is None,
            },
    {
        match self {
            LinkError::NoLink => None,
            LinkError::NotANumber(reason) => Some(reason.message()),
        }
    }
}

/// `word` stands in `s` at `p`.
pub open spec fn stands_at(s: Seq<char>, p: int, word: Seq<char>) -> bool {
    0 <= p && p + word.len() <= s.len() && s.subrange(p, p + word.len()) == word
}

/// The length of the part of a link that comes before the number, without the scheme.
pub open spec fn host_len() -> int {
    38
}

/// The host and the path of events stand in `s` at `p`.  Any character but a line feed may stand
/// for each dot of the host.
pub open spec fn is_host_at(s: Seq<char>, p: int) -> bool {
    &&& stands_at(s, p, "locator"@)
    &&& s[p + 7] != '\n'
    &&& stands_at(s, p + 8, "riftbound"@)
    &&& s[p + 17] != '\n'
    &&& stands_at(s, p + 18, "uvsgames"@)
    &&& s[p + 26] != '\n'
    &&& stands_at(s, p + 27, "com/events/"@)
}

/// Where the first host of a link stands in `s`, at or after `from`.
pub open spec fn find_host(s: Seq<char>, from: int) -> Option<int>
    decreases s.len() - from,
{
    if from >= s.len() {
        None
    } else if is_host_at(s, from) {
        Some(from)
    } else {
        find_host(s, from + 1)
    }
}

/// What the first link in `s` names: everything between its path and the next slash.
pub open spec fn linked_text(s: Seq<char>) -> Option<Seq<char>> {
    match find_host(s, 0) {
        Some(p) => Some(s.subrange(p + host_len(), find_from(s, '/', p + host_len()))),
        None => None,
    }
}

/// The event that a text links to.
pub open spec fn linked_event(s: Seq<char>) -> Result<u32, LinkError> {
    match linked_text(s) {
        Some(id) => match number_read(id) {
            Ok(event) => Ok(event),
            Err(reason) => Err(LinkError::NotANumber(reason)),
        },
        None => Err(LinkError::NoLink),
    }
}

/// `regex::Regex::captures` for the pattern of links, and the group that holds the number.
///
/// The search finds the leftmost match.  In the pattern a dot is any character but a line feed,
/// the scheme is optional, and the group takes every character up to the next slash or the end.
/// A scheme before the host belongs to the match but not to the group, and no host stands
/// inside another, so the group of the leftmost match follows the first host.
#[verifier::external_body]
fn capture(pattern: &str, group: &str, haystack: &str) -> (found: Option<String>)
    requires
        pattern@ == EVENT_PATTERN@,
        group@ == ID_GROUP@,
    ensures
        found is Some <==> linked_text(haystack@) is Some,
        found matches Some(id) ==> linked_text(haystack@) == Some(id@),
{
    let regex = Regex::new(pattern).expect("the pattern is well formed");
    match regex.captures(haystack) {
        Some(captures) => Some(captures[group].to_owned()),
        None => None,
    }
}

/// Reads the event that `link` names.
pub fn event_in_link(link: &str) -> (event: Result<u32, LinkError>)
    ensures
        event == linked_event(link@),
{
    match capture(EVENT_PATTERN, ID_GROUP, link) {
        Some(id) => match parse_number(id.as_str()) {
            Ok(event) => Ok(event),
            Err(reason) => Err(LinkError::NotANumber(reason)),
        },
        None => Err(LinkError::NoLink),
    }
}

/// The link to an event, with or without a scheme and with or without more path after it, names
/// that event.
pub proof fn law_link_names_its_event(scheme: Seq<char>, event: u32, tail: Seq<char>)
    requires
        scheme == ""@ || scheme == "http://"@ || scheme == "https://"@,
        tail.len() > 0 ==> tail[0] == '/',
    ensures
        linked_event(
            scheme + "locator.riftbound.uvsgames.com/events/"@ + decimal(event as nat) + tail,
        ) == Ok::<u32, LinkError>(event),
{
    let host = "locator.riftbound.uvsgames.com/events/"@;
    let id = decimal(event as nat);
    let link = scheme + host + id + tail;
    let p = scheme.len() as int;
    reveal_strlit("");
    reveal_strlit("http://");
    reveal_strlit("https://");
    reveal_strlit("locator.riftbound.uvsgames.com/events/");
    reveal_strlit("locator");
    reveal_strlit("riftbound");
    reveal_strlit("uvsgames");
    reveal_strlit("com/events/");
    assert(is_host_at(link, p)) by {
        assert(link.subrange(p, p + 7) =~= "locator"@);
        assert(link.subrange(p + 8, p + 17) =~= "riftbound"@);
        assert(link.subrange(p + 18, p + 26) =~= "uvsgames"@);
        assert(link.subrange(p + 27, p + 38) =~= "com/events/"@);
    }
    assert forall|i: int| 0 <= i < p implies !is_host_at(link, i) by {
        assert(link[i] == scheme[i]);
        assert(link[i] != 'l');
        if is_host_at(link, i) {
            assert(link.subrange(i, i + 7)[0] == link[i]);
        }
    }
    lemma_find_host(link, 0, p);
    lemma_decimal_digits(event as nat);
    let start = p + host_len();
    let end = start + id.len();
    assert forall|i: int| start <= i < end implies link[i] != '/' by {
        assert(link[i] == id[i - start]);
    }
    lemma_find_from(link, '/', start, end);
    assert(link.subrange(start, end) =~= id);
    law_decimal_reads_back(event as nat);
}

proof fn lemma_find_host(s: Seq<char>, from: int, p: int)
    requires
        0 <= from <= p < s.len(),
        is_host_at(s, p),
        forall|i: int| from <= i < p ==> !is_host_at(s, i),
    ensures
        find_host(s, from) == Some(p),
    decreases p - from,
{
    if from < p {
        lemma_find_host(s, from + 1, p);
    }
}

/// The host of a link is spelled out, but for its three dots, each of which may be any character
/// that does not end a line.
pub proof fn law_host_is_spelled_out(s: Seq<char>, p: int)
    ensures
        is_host_at(s, p) <==> {
            &&& 0 <= p
            &&& p + 38 <= s.len()
            &&& s.subrange(p, p + 7) == "locator"@
            &&& s[p + 7] != '\n'
            &&& s.subrange(p + 8, p + 17) == "riftbound"@
            &&& s[p + 17] != '\n'
            &&& s.subrange(p + 18, p + 26) == "uvsgames"@
            &&& s[p + 26] != '\n'
            &&& s.subrange(p + 27, p + 38) == "com/events/"@
        },
{
    reveal_strlit("locator");
    reveal_strlit("riftbound");
    reveal_strlit("uvsgames");
    reveal_strlit("com/events/");
}

proof fn lemma_found_host(s: Seq<char>, from: int)
    requires
        0 <= from,
    ensures
        match find_host(s, from) {
            Some(p) => from <= p < s.len() && is_host_at(s, p) && forall|q: int|
                from <= q < p ==> !is_host_at(s, q),
            None => forall|q: int| from <= q < s.len() ==> !is_host_at(s, q),
        },
    decreases s.len() - from,
{
    if from < s.len() && !is_host_at(s, from) {
        lemma_found_host(s, from + 1);
    }
}

proof fn lemma_found_char(s: Seq<char>, c: char, from: int)
    requires
        0 <= from <= s.len(),
    ensures
        from <= find_from(s, c, from) <= s.len(),
        forall|i: int| from <= i < find_from(s, c, from) ==> s[i] != c,
        find_from(s, c, from) < s.len() ==> s[find_from(s, c, from)] == c,
    decreases s.len() - from,
{
    if from < s.len() && s[from] != c {
        lemma_found_char(s, c, from + 1);
    }
}

/// The first link of a text counts: the host at `at.0`, before which there is none.  What it
/// names stands right behind the host and goes up to the next slash, at `at.1`, or to the end.
/// A text without a host has no link.
pub proof fn law_first_link_counts(s: Seq<char>) -> (at: (int, int))
    ensures
        match linked_text(s) {
            Some(id) => {
                &&& is_host_at(s, at.0)
                &&& forall|q: int| 0 <= q < at.0 ==> !is_host_at(s, q)
                &&& at.0 + 38 <= at.1 <= s.len()
                &&& id == s.subrange(at.0 + 38, at.1)
                &&& forall|i: int| at.0 + 38 <= i < at.1 ==> s[i] != '/'
                &&& at.1 < s.len() ==> s[at.1] == '/'
            },
            None => forall|q: int| !is_host_at(s, q),
        },
{
    lemma_found_host(s, 0);
    match find_host(s, 0) {
        Some(p) => {
            law_host_is_spelled_out(s, p);
            lemma_found_char(s, '/', p + 38);
            (p, find_from(s, '/', p + 38))
        },
        None => {
            assert forall|q: int| !is_host_at(s, q) by {
                law_host_is_spelled_out(s, q);
            }
            (0, 0)
        },
    }
}

/// A text links to the event whose number its link names; where that is no number the reason is
/// told, and where there is no link that is told.
pub proof fn law_event_is_the_number_in_the_link(s: Seq<char>)
    ensures
        match linked_text(s) {
            Some(id) => match number_read(id) {
                Ok(event) => linked_event(s) == Ok::<u32, LinkError>(event),
                Err(reason) => linked_event(s) == Err::<u32, LinkError>(
                    LinkError::NotANumber(reason),
                ),
            },
            None => linked_event(s) == Err::<u32, LinkError>(LinkError::NoLink),
        },
{
}

/// The user is told whether there was no link or no number, whatever is wrong with the number;
/// what is wrong with it lies below.
pub proof fn law_user_is_told_what_was_wrong(reason: NumberError)
    ensures
        LinkError::NoLink.text() == "Could not parse provided tournament url"@,
        LinkError::NoLink.cause_text() is None,
        LinkError::NotANumber(reason).text() == "event id is not a number"@,
        LinkError::NotANumber(reason).cause_text() == Some(reason.text()),
{
}

} // verus!
