//! Addresses of the tournament service.
use crate::text::{
    decimal, decimal_text, is_digit, law_decimal_is_injective, lemma_decimal_digits,
};
use url::{ParseError, Url};
use vstd::prelude::*;
use vstd::utf8::encode_utf8;

verus! {

/// The root of the service; every other address is found below it.
pub const API_URL: &'static str =
    "https://api.cloudflare.riftbound.uvsgames.com/hydraproxy/api/v2/";

/// Why two texts do not join to a URL.
#[derive(Clone, Copy, Debug, PartialEq, Eq, Structural)]
pub enum AddressError {
    /// There is no host.
    EmptyHost,
    /// The international domain name is not valid.
    IdnaError,
    /// The port is not a valid number.
    InvalidPort,
    /// The IPv4 address is not valid.
    InvalidIpv4Address,
    /// The IPv6 address is not valid.
    InvalidIpv6Address,
    /// A character cannot stand in a domain.
    InvalidDomainCharacter,
    /// The base is not an absolute URL.
    RelativeUrlWithoutBase,
    /// Nothing can be joined to the base.
    RelativeUrlWithCannotBeABaseBase,
    /// A URL that cannot be a base has no host to set.
    SetHostOnCannotBeABaseUrl,
    /// The URL is too long.
    Overflow,
    /// Any other reason.
    Other,
}

/// A character that stands for itself in the path of an address.
pub open spec fn is_plain(c: char) -> bool {
    is_digit(c) || 'a' <= c <= 'z' || 'A' <= c <= 'Z' || c == '-' || c == '_' || c == '/'
}

pub open spec fn all_plain(s: Seq<char>) -> bool {
    forall|i: int| 0 <= i < s.len() ==> is_plain(#[trigger] s[i])
}

/// A relative path made of plain characters.
pub open spec fn is_plain_path(s: Seq<char>) -> bool {
    all_plain(s) && (s.len() > 0 ==> s[0] != '/')
}

/// A directory of the service: the root, or the root and a plain path that ends in `/`.
pub open spec fn is_directory(s: Seq<char>) -> bool {
    &&& API_URL@.len() <= s.len()
    &&& s.take(API_URL@.len() as int) == API_URL@
    &&& all_plain(s.skip(API_URL@.len() as int))
    &&& s.last() == '/'
}

/// What `Url::join` makes of `input` on the base `base`, as text; the reason where `base` is not a
/// URL or where the two do not join.
pub uninterp spec fn joined_url(base: Seq<char>, input: Seq<char>) -> Result<
    Seq<char>,
    AddressError,
>;

/// `url::Url::join`, on the URL that `base` parses to.
///
/// The result is the text of the joined URL, or the kind of `url::ParseError`, and depends on the
/// two texts alone.  A plain path joined to a directory of the service is appended to it: such a
/// path has no scheme, no leading slash, no dot segment, no query, no fragment and nothing to
/// percent-encode, and the last segment of the base is empty.
#[verifier::external_body]
fn join_url(base: &str, input: &str) -> (joined: Result<String, AddressError>)
    ensures
        joined matches Ok(text) ==> (joined_url(base@, input@) matches Ok(url) && url == text@),
        joined matches Err(e) ==> (joined_url(base@, input@) matches Err(kind) && kind == e),
        is_directory(base@) && is_plain_path(input@) ==> joined is Ok,
        joined matches Ok(text) ==> (is_directory(base@) && is_plain_path(input@) ==> text@ == base@
            + input@),
{
    match Url::parse(base).and_then(|url| url.join(input)) {
        Ok(url) => Ok(String::from(url)),
        Err(ParseError::EmptyHost) => Err(AddressError::EmptyHost),
        Err(ParseError::IdnaError) => Err(AddressError::IdnaError),
        Err(ParseError::InvalidPort) => Err(AddressError::InvalidPort),
        Err(ParseError::InvalidIpv4Address) => Err(AddressError::InvalidIpv4Address),
        Err(ParseError::InvalidIpv6Address) => Err(AddressError::InvalidIpv6Address),
        Err(ParseError::InvalidDomainCharacter) => Err(AddressError::InvalidDomainCharacter),
        Err(ParseError::RelativeUrlWithoutBase) => Err(AddressError::RelativeUrlWithoutBase),
        Err(ParseError::RelativeUrlWithCannotBeABaseBase) => Err(AddressError::RelativeUrlWithCannotBeABaseBase),
        Err(ParseError::SetHostOnCannotBeABaseUrl) => Err(AddressError::SetHostOnCannotBeABaseUrl),
        Err(ParseError::Overflow) => Err(AddressError::Overflow),
        Err(_) => Err(AddressError::Other),
    }
}

/// The upper-case hexadecimal digit of `d`.
pub open spec fn hex_char(d: int) -> char {
    if d < 10 {
        ('0' as int + d) as char
    } else {
        ('A' as int + d - 10) as char
    }
}

/// One byte as `application/x-www-form-urlencoded` writes it.
pub open spec fn form_byte(b: u8) -> Seq<char> {
    let c = b as char;
    if is_digit(c) || 'a' <= c <= 'z' || 'A' <= c <= 'Z' || c == '*' || c == '-' || c == '.' || c
        == '_' {
        seq![c]
    } else if c == ' ' {
        seq!['+']
    } else {
        seq!['%', hex_char(b as int / 16), hex_char(b as int % 16)]
    }
}

pub open spec fn form_bytes(bytes: Seq<u8>) -> Seq<char>
    decreases bytes.len(),
{
    if bytes.len() == 0 {
        Seq::empty()
    } else {
        form_byte(bytes[0]) + form_bytes(bytes.skip(1))
    }
}

/// A text as `application/x-www-form-urlencoded` writes it, byte by byte of its UTF-8 form.
pub open spec fn form_text(s: Seq<char>) -> Seq<char> {
    form_bytes(encode_utf8(s))
}

/// `name=value`, both encoded.
pub open spec fn pair_text(pair: (Seq<char>, Seq<char>)) -> Seq<char> {
    form_text(pair.0) + seq!['='] + form_text(pair.1)
}

/// The pairs of a query, joined by `&`.
pub open spec fn query_text(pairs: Seq<(Seq<char>, Seq<char>)>) -> Seq<char>
    decreases pairs.len(),
{
    if pairs.len() == 0 {
        Seq::empty()
    } else if pairs.len() == 1 {
        pair_text(pairs[0])
    } else {
        query_text(pairs.drop_last()) + seq!['&'] + pair_text(pairs.last())
    }
}

pub open spec fn pair_views(pairs: Seq<(String, String)>) -> Seq<(Seq<char>, Seq<char>)> {
    pairs.map_values(|p: (String, String)| (p.0@, p.1@))
}

/// `extend_pairs` on `url::Url::query_pairs_mut`, which appends every pair in order.
///
/// A directory of the service parses to itself and has no query; it gets one, with each name
/// and value form-encoded.  The position of a query is a 32-bit number.
#[verifier::external_body]
fn with_query(base: &str, pairs: &Vec<(String, String)>) -> (url: String)
    requires
        is_directory(base@),
        base@.len() <= u32::MAX,
    ensures
        url@ == base@ + seq!['?'] + query_text(pair_views(pairs@)),
{
    let mut url = Url::parse(base).expect("a directory of the service");
    url.query_pairs_mut().extend_pairs(pairs);
    String::from(url)
}

pub proof fn lemma_root_is_directory()
    ensures
        is_directory(API_URL@),
        API_URL@.len() == 64,
{
    reveal_strlit("https://api.cloudflare.riftbound.uvsgames.com/hydraproxy/api/v2/");
    assert(API_URL@.take(API_URL@.len() as int) =~= API_URL@);
}

proof fn lemma_append_keeps_directory(base: Seq<char>, path: Seq<char>)
    requires
        is_directory(base),
        is_plain_path(path),
        path.len() > 0,
        path.last() == '/',
    ensures
        is_directory(base + path),
{
    let n = API_URL@.len() as int;
    assert((base + path).take(n) =~= base.take(n));
    let rest = (base + path).skip(n);
    assert forall|i: int| 0 <= i < rest.len() implies is_plain(#[trigger] rest[i]) by {
        if i < base.len() - n {
            assert(rest[i] == base.skip(n)[i]);
        } else {
            assert(rest[i] == path[i - (base.len() - n)]);
        }
    }
}

/// Joins a plain path that ends in `/` to a directory of the service.
fn subdirectory(base: &str, path: &str) -> (url: String)
    requires
        is_directory(base@),
        is_plain_path(path@),
        path@.len() > 0,
        path@.last() == '/',
    ensures
        url@ == base@ + path@,
        is_directory(url@),
{
    proof {
        lemma_append_keeps_directory(base@, path@);
    }
    match join_url(base, path) {
        Ok(url) => url,
        Err(_) => vstd::pervasive::unreached(),
    }
}

/// The path segment of a numbered resource.
pub open spec fn id_segment(id: u32) -> Seq<char> {
    decimal(id as nat).push('/')
}

proof fn lemma_id_segment(id: u32)
    ensures
        is_plain_path(id_segment(id)),
        id_segment(id).last() == '/',
        2 <= id_segment(id).len() <= 11,
{
    lemma_decimal_digits(id as nat);
    reveal_with_fuel(decimal, 10);
}

fn id_path(id: u32) -> (path: String)
    ensures
        path@ == id_segment(id),
{
    let mut path = decimal_text(id as u64);
    path.push('/');
    path
}

/// The address of a deck: `deck_id` below the decks of the deck builder.
pub open spec fn deck_address(deck_id: Seq<char>) -> Result<Seq<char>, AddressError> {
    joined_url(API_URL@ + "deckbuilder/decks/"@, deck_id)
}

pub open spec fn event_address(event_id: u32) -> Seq<char> {
    API_URL@ + "events/"@ + id_segment(event_id)
}

pub open spec fn registrations_address(event_id: u32) -> Seq<char> {
    event_address(event_id) + "registrations/"@
}

pub open spec fn tournament_rounds_address(event_id: u32) -> Seq<char> {
    API_URL@ + "tournament-rounds/"@ + id_segment(event_id)
}

/// The parameters of a page: its size, its number, and the player it is about, if any.
pub open spec fn page_pairs(page_size: usize, page: u32, player_name: Option<Seq<char>>) -> Seq<
    (Seq<char>, Seq<char>),
> {
    let paging = seq![
        ("page_size"@, decimal(page_size as nat)),
        ("page"@, decimal(page as nat)),
    ];
    match player_name {
        Some(name) => paging.push(("player_name"@, name)),
        None => paging,
    }
}

pub open spec fn matches_address(
    event_id: u32,
    page_size: usize,
    page: u32,
    player_name: Option<Seq<char>>,
) -> Seq<char> {
    tournament_rounds_address(event_id) + "matches/paginated/"@ + seq!['?'] + query_text(
        page_pairs(page_size, page, player_name),
    )
}

pub open spec fn standings_address(
    event_id: u32,
    page_size: usize,
    page: u32,
    player_name: Option<Seq<char>>,
) -> Seq<char> {
    tournament_rounds_address(event_id) + "standings/paginated/"@ + seq!['?'] + query_text(
        page_pairs(page_size, page, player_name),
    )
}

pub open spec fn opt_view(text: Option<&str>) -> Option<Seq<char>> {
    match text {
        Some(t) => Some(t@),
        None => None,
    }
}

/// The paths below the root are plain directories.
proof fn lemma_fixed_paths()
    ensures
        is_directory(API_URL@),
        API_URL@.len() == 64,
        forall|p: Seq<char>|
            #![trigger is_plain_path(p)]
            p == "deckbuilder/decks/"@ || p == "events/"@ || p == "registrations/"@ || p
                == "tournament-rounds/"@ || p == "matches/paginated/"@ || p == "standings/paginated/"@ ==> is_plain_path(p)
                && 0 < p.len() <= 20 && p.last() == '/',
{
    lemma_root_is_directory();
    reveal_strlit("deckbuilder/decks/");
    reveal_strlit("events/");
    reveal_strlit("registrations/");
    reveal_strlit("tournament-rounds/");
    reveal_strlit("matches/paginated/");
    reveal_strlit("standings/paginated/");
}

/// The address of a deck.
pub fn deck_url(deck_id: &str) -> (url: Result<String, AddressError>)
    ensures
        match url {
            Ok(text) => deck_address(deck_id@) == Ok::<Seq<char>, AddressError>(text@),
            Err(e) => deck_address(deck_id@) == Err::<Seq<char>, AddressError>(e),
        },
        is_plain_path(deck_id@) ==> deck_address(deck_id@) == Ok::<Seq<char>, AddressError>(
            API_URL@ + "deckbuilder/decks/"@ + deck_id@,
        ),
{
    proof {
        lemma_fixed_paths();
        assert(is_plain_path("deckbuilder/decks/"@));
    }
    let base = subdirectory(API_URL, "deckbuilder/decks/");
    join_url(base.as_str(), deck_id)
}

/// The address of an event.
pub fn event_url(event_id: u32) -> (url: String)
    ensures
        url@ == event_address(event_id),
        is_directory(url@),
{
    proof {
        lemma_fixed_paths();
        lemma_id_segment(event_id);
        assert(is_plain_path("events/"@));
    }
    let events = subdirectory(API_URL, "events/");
    subdirectory(events.as_str(), id_path(event_id).as_str())
}

/// The address of the registrations for an event.
pub fn registrations(event_id: u32) -> (url: String)
    ensures
        url@ == registrations_address(event_id),
        is_directory(url@),
{
    proof {
        lemma_fixed_paths();
        assert(is_plain_path("registrations/"@));
    }
    subdirectory(event_url(event_id).as_str(), "registrations/")
}

/// The address of a round of a tournament.
pub fn tournament_rounds_url(event_id: u32) -> (url: String)
    ensures
        url@ == tournament_rounds_address(event_id),
        is_directory(url@),
{
    proof {
        lemma_fixed_paths();
        lemma_id_segment(event_id);
        assert(is_plain_path("tournament-rounds/"@));
    }
    let rounds = subdirectory(API_URL, "tournament-rounds/");
    subdirectory(rounds.as_str(), id_path(event_id).as_str())
}

/// The parameters of a page, as pairs of a query.
fn page_query(page_size: usize, page: u32, player_name: Option<&str>) -> (pairs: Vec<
    (String, String),
>)
    ensures
        pair_views(pairs@) == page_pairs(page_size, page, opt_view(player_name)),
{
    let mut pairs: Vec<(String, String)> = Vec::new();
    pairs.push(("page_size".to_owned(), decimal_text(page_size as u64)));
    pairs.push(("page".to_owned(), decimal_text(page as u64)));
    if let Some(name) = player_name {
        pairs.push(("player_name".to_owned(), name.to_owned()));
    }
    assert(pair_views(pairs@) =~= page_pairs(page_size, page, opt_view(player_name)));
    pairs
}

/// The address of a page of the matches of a round, of all of them or of one player's.
pub fn matches_url(event_id: u32, page_size: usize, page: u32, player_name: Option<&str>) -> (url:
    String)
    ensures
        url@ == matches_address(event_id, page_size, page, opt_view(player_name)),
{
    proof {
        lemma_fixed_paths();
        lemma_id_segment(event_id);
        assert(is_plain_path("matches/paginated/"@));
        assert(is_plain_path("tournament-rounds/"@));
    }
    let base = subdirectory(tournament_rounds_url(event_id).as_str(), "matches/paginated/");
    with_query(base.as_str(), &page_query(page_size, page, player_name))
}

/// The address of a page of the standings after a round, of all players or of one.
pub fn standings_url(event_id: u32, page_size: usize, page: u32, player_name: Option<&str>) -> (url:
    String)
    ensures
        url@ == standings_address(event_id, page_size, page, opt_view(player_name)),
{
    proof {
        lemma_fixed_paths();
        lemma_id_segment(event_id);
        assert(is_plain_path("standings/paginated/"@));
        assert(is_plain_path("tournament-rounds/"@));
    }
    let base = subdirectory(tournament_rounds_url(event_id).as_str(), "standings/paginated/");
    with_query(base.as_str(), &page_query(page_size, page, player_name))
}

/// A text is determined by a fixed start and what follows.
proof fn lemma_same_start(start: Seq<char>, a: Seq<char>, b: Seq<char>)
    requires
        start + a == start + b,
    ensures
        a == b,
{
    assert((start + a).skip(start.len() as int) =~= a);
    assert((start + b).skip(start.len() as int) =~= b);
}

/// A text is determined by what stands before and after the first `c`.
proof fn lemma_same_split(a: Seq<char>, x: Seq<char>, b: Seq<char>, y: Seq<char>, c: char)
    requires
        a + seq![c] + x == b + seq![c] + y,
        !a.contains(c),
        !b.contains(c),
    ensures
        a == b,
        x == y,
{
    let s = a + seq![c] + x;
    let t = b + seq![c] + y;
    if a.len() < b.len() {
        assert(t[a.len() as int] == b[a.len() as int]);
        assert(s[a.len() as int] == c);
        assert(b.contains(b[a.len() as int]));
    } else if b.len() < a.len() {
        assert(s[b.len() as int] == a[b.len() as int]);
        assert(t[b.len() as int] == c);
        assert(a.contains(a[b.len() as int]));
    }
    assert(s.take(a.len() as int) =~= a);
    assert(t.take(a.len() as int) =~= b);
    assert(s.skip(a.len() as int + 1) =~= x);
    assert(t.skip(a.len() as int + 1) =~= y);
}

proof fn lemma_form_byte(b: u8)
    ensures
        form_byte(b).len() == 1 || form_byte(b).len() == 3,
        form_byte(b).len() == 3 <==> form_byte(b)[0] == '%',
        !form_byte(b).contains('&'),
        !form_byte(b).contains('='),
{
}

/// Bytes can be read back from their encoded form.
proof fn lemma_form_bytes_injective(a: Seq<u8>, b: Seq<u8>)
    requires
        form_bytes(a) == form_bytes(b),
    ensures
        a == b,
    decreases a.len(),
{
    if a.len() > 0 {
        lemma_form_byte(a[0]);
    }
    if b.len() > 0 {
        lemma_form_byte(b[0]);
    }
    if a.len() == 0 || b.len() == 0 {
        assert(form_bytes(Seq::<u8>::empty()).len() == 0);
        assert(a.len() == 0 ==> a =~= Seq::empty());
        assert(b.len() == 0 ==> b =~= Seq::empty());
        assert(a =~= b);
    } else {
        let x = form_byte(a[0]);
        let y = form_byte(b[0]);
        let all = form_bytes(a);
        assert(all[0] == x[0]);
        assert(all[0] == y[0]);
        assert(x.len() == y.len());
        assert(all.take(x.len() as int) =~= x);
        assert(all.take(x.len() as int) =~= y);
        if x.len() == 3 {
            assert(x[1] == y[1] && x[2] == y[2]);
            assert(hex_char(a[0] as int / 16) == hex_char(b[0] as int / 16));
            assert(hex_char(a[0] as int % 16) == hex_char(b[0] as int % 16));
        }
        assert(a[0] == b[0]);
        lemma_same_start(x, form_bytes(a.skip(1)), form_bytes(b.skip(1)));
        lemma_form_bytes_injective(a.skip(1), b.skip(1));
        assert(a =~= seq![a[0]] + a.skip(1));
        assert(b =~= seq![b[0]] + b.skip(1));
    }
}

proof fn lemma_form_bytes_chars(bytes: Seq<u8>)
    ensures
        !form_bytes(bytes).contains('&'),
        !form_bytes(bytes).contains('='),
    decreases bytes.len(),
{
    if bytes.len() > 0 {
        let first = form_byte(bytes[0]);
        let rest = form_bytes(bytes.skip(1));
        lemma_form_byte(bytes[0]);
        lemma_form_bytes_chars(bytes.skip(1));
        let all = form_bytes(bytes);
        assert forall|i: int| 0 <= i < all.len() implies all[i] != '&' && all[i] != '=' by {
            if i < first.len() {
                assert(first.contains(first[i]));
            } else {
                assert(rest.contains(rest[i - first.len()]));
            }
        }
    }
}

/// A text can be read back from its encoded form.
pub proof fn law_form_text_is_injective(a: Seq<char>, b: Seq<char>)
    requires
        form_text(a) == form_text(b),
    ensures
        a == b,
{
    lemma_form_bytes_injective(encode_utf8(a), encode_utf8(b));
    vstd::utf8::encode_utf8_decode_utf8(a);
    vstd::utf8::encode_utf8_decode_utf8(b);
}

/// The value of a pair can be read back, and no pair holds an `&`.
proof fn lemma_pair_text(name: Seq<char>, a: Seq<char>, b: Seq<char>)
    ensures
        !pair_text((name, a)).contains('&'),
        pair_text((name, a)) == pair_text((name, b)) ==> a == b,
{
    lemma_form_bytes_chars(encode_utf8(name));
    lemma_form_bytes_chars(encode_utf8(a));
    let key = form_text(name);
    let value = form_text(a);
    let all = pair_text((name, a));
    assert forall|i: int| 0 <= i < all.len() implies all[i] != '&' by {
        if i < key.len() {
            assert(key.contains(key[i]));
        } else if i > key.len() {
            assert(value.contains(value[i - key.len() - 1]));
        }
    }
    if pair_text((name, a)) == pair_text((name, b)) {
        lemma_same_start(key + seq!['='], form_text(a), form_text(b));
        law_form_text_is_injective(a, b);
    }
}

/// The parameters of a page can be read back from its query.
proof fn lemma_page_query_injective(
    size1: usize,
    page1: u32,
    name1: Option<Seq<char>>,
    size2: usize,
    page2: u32,
    name2: Option<Seq<char>>,
)
    requires
        query_text(page_pairs(size1, page1, name1)) == query_text(page_pairs(size2, page2, name2)),
    ensures
        size1 == size2,
        page1 == page2,
        name1 == name2,
{
    lemma_page_query(size1, page1, name1);
    lemma_page_query(size2, page2, name2);
    let s1 = pair_text(("page_size"@, decimal(size1 as nat)));
    let s2 = pair_text(("page_size"@, decimal(size2 as nat)));
    let p1 = pair_text(("page"@, decimal(page1 as nat)));
    let p2 = pair_text(("page"@, decimal(page2 as nat)));
    lemma_pair_text("page_size"@, decimal(size1 as nat), decimal(size2 as nat));
    lemma_pair_text("page_size"@, decimal(size2 as nat), decimal(size1 as nat));
    lemma_pair_text("page"@, decimal(page1 as nat), decimal(page2 as nat));
    lemma_pair_text("page"@, decimal(page2 as nat), decimal(page1 as nat));
    let rest1 = player_part(p1, name1);
    let rest2 = player_part(p2, name2);
    lemma_same_split(s1, rest1, s2, rest2, '&');
    law_decimal_is_injective(size1 as nat, size2 as nat);
    match (name1, name2) {
        (Some(a), Some(b)) => {
            let x = pair_text(("player_name"@, a));
            let y = pair_text(("player_name"@, b));
            lemma_same_split(p1, x, p2, y, '&');
            lemma_pair_text("player_name"@, a, b);
        },
        (Some(a), None) => {
            assert(rest1[p1.len() as int] == '&');
            assert(p2.contains(p2[p1.len() as int]));
        },
        (None, Some(b)) => {
            assert(rest2[p2.len() as int] == '&');
            assert(p1.contains(p1[p2.len() as int]));
        },
        (None, None) => {},
    }
    law_decimal_is_injective(page1 as nat, page2 as nat);
}

/// The query of a page after its size.
spec fn player_part(page: Seq<char>, name: Option<Seq<char>>) -> Seq<char> {
    match name {
        Some(name) => page + seq!['&'] + pair_text(("player_name"@, name)),
        None => page,
    }
}

proof fn lemma_page_query(size: usize, page: u32, name: Option<Seq<char>>)
    ensures
        query_text(page_pairs(size, page, name)) == pair_text(
            ("page_size"@, decimal(size as nat)),
        ) + seq!['&'] + player_part(pair_text(("page"@, decimal(page as nat))), name),
{
    let pairs = page_pairs(size, page, name);
    let paging = page_pairs(size, page, None);
    assert(paging.drop_last() =~= seq![paging[0]]);
    reveal_with_fuel(query_text, 3);
    match name {
        Some(n) => {
            assert(pairs.drop_last() =~= paging);
            assert(query_text(pairs) =~= pair_text(paging[0]) + seq!['&'] + player_part(
                pair_text(paging[1]),
                name,
            ));
        },
        None => {},
    }
}

/// The number of a resource can be read back from its path.
proof fn lemma_id_segment_injective(id1: u32, rest1: Seq<char>, id2: u32, rest2: Seq<char>)
    requires
        id_segment(id1) + rest1 == id_segment(id2) + rest2,
    ensures
        id1 == id2,
        rest1 == rest2,
{
    lemma_decimal_digits(id1 as nat);
    lemma_decimal_digits(id2 as nat);
    let a = decimal(id1 as nat);
    let b = decimal(id2 as nat);
    assert(id_segment(id1) + rest1 =~= a + seq!['/'] + rest1);
    assert(id_segment(id2) + rest2 =~= b + seq!['/'] + rest2);
    lemma_same_split(a, rest1, b, rest2, '/');
    law_decimal_is_injective(id1 as nat, id2 as nat);
}

/// Two events have two addresses.
pub proof fn law_events_have_their_own_address(id1: u32, id2: u32)
    requires
        event_address(id1) == event_address(id2),
    ensures
        id1 == id2,
{
    lemma_same_start(API_URL@ + "events/"@, id_segment(id1), id_segment(id2));
    assert(id_segment(id1) + Seq::empty() =~= id_segment(id1));
    assert(id_segment(id2) + Seq::empty() =~= id_segment(id2));
    lemma_id_segment_injective(id1, Seq::empty(), id2, Seq::empty());
}

/// A page of standings is found at no address but its own: the address tells the round, the
/// size, the number of the page and the player.
pub proof fn law_standings_pages_have_their_own_address(
    id1: u32,
    size1: usize,
    page1: u32,
    name1: Option<Seq<char>>,
    id2: u32,
    size2: usize,
    page2: u32,
    name2: Option<Seq<char>>,
)
    requires
        standings_address(id1, size1, page1, name1) == standings_address(id2, size2, page2, name2),
    ensures
        id1 == id2,
        size1 == size2,
        page1 == page2,
        name1 == name2,
{
    let path = "standings/paginated/"@ + seq!['?'];
    let q1 = query_text(page_pairs(size1, page1, name1));
    let q2 = query_text(page_pairs(size2, page2, name2));
    lemma_page_address_injective(path, id1, q1, id2, q2);
    assert(standings_address(id1, size1, page1, name1) =~= page_address(path, id1, q1));
    assert(standings_address(id2, size2, page2, name2) =~= page_address(path, id2, q2));
    lemma_page_query_injective(size1, page1, name1, size2, page2, name2);
}

/// A page of matches is found at no address but its own.
pub proof fn law_matches_pages_have_their_own_address(
    id1: u32,
    size1: usize,
    page1: u32,
    name1: Option<Seq<char>>,
    id2: u32,
    size2: usize,
    page2: u32,
    name2: Option<Seq<char>>,
)
    requires
        matches_address(id1, size1, page1, name1) == matches_address(id2, size2, page2, name2),
    ensures
        id1 == id2,
        size1 == size2,
        page1 == page2,
        name1 == name2,
{
    let path = "matches/paginated/"@ + seq!['?'];
    let q1 = query_text(page_pairs(size1, page1, name1));
    let q2 = query_text(page_pairs(size2, page2, name2));
    lemma_page_address_injective(path, id1, q1, id2, q2);
    assert(matches_address(id1, size1, page1, name1) =~= page_address(path, id1, q1));
    assert(matches_address(id2, size2, page2, name2) =~= page_address(path, id2, q2));
    lemma_page_query_injective(size1, page1, name1, size2, page2, name2);
}

spec fn page_address(path: Seq<char>, id: u32, query: Seq<char>) -> Seq<char> {
    (API_URL@ + "tournament-rounds/"@) + (id_segment(id) + (path + query))
}

proof fn lemma_page_address_injective(
    path: Seq<char>,
    id1: u32,
    query1: Seq<char>,
    id2: u32,
    query2: Seq<char>,
)
    ensures
        page_address(path, id1, query1) == page_address(path, id2, query2) ==> id1 == id2 && query1
            == query2,
{
    if page_address(path, id1, query1) == page_address(path, id2, query2) {
        lemma_same_start(
            API_URL@ + "tournament-rounds/"@,
            id_segment(id1) + (path + query1),
            id_segment(id2) + (path + query2),
        );
        lemma_id_segment_injective(id1, path + query1, id2, path + query2);
        lemma_same_start(path, query1, query2);
    }
}

/// Events, standings and matches are never found at the same address.
pub proof fn law_kinds_have_their_own_addresses(
    event_id: u32,
    id1: u32,
    size1: usize,
    page1: u32,
    name1: Option<Seq<char>>,
    id2: u32,
    size2: usize,
    page2: u32,
    name2: Option<Seq<char>>,
)
    ensures
        event_address(event_id) != standings_address(id1, size1, page1, name1),
        event_address(event_id) != matches_address(id2, size2, page2, name2),
        standings_address(id1, size1, page1, name1) != matches_address(id2, size2, page2, name2),
{
    let rest1 = "standings/paginated/"@ + seq!['?'] + query_text(page_pairs(size1, page1, name1));
    let rest2 = "matches/paginated/"@ + seq!['?'] + query_text(page_pairs(size2, page2, name2));
    let rounds = API_URL@ + "tournament-rounds/"@;
    let standings = standings_address(id1, size1, page1, name1);
    let matches = matches_address(id2, size2, page2, name2);
    assert(standings =~= rounds + (id_segment(id1) + rest1));
    assert(matches =~= rounds + (id_segment(id2) + rest2));
    reveal_strlit("events/");
    reveal_strlit("tournament-rounds/");
    reveal_strlit("standings/paginated/");
    reveal_strlit("matches/paginated/");
    let n = API_URL@.len() as int;
    assert(event_address(event_id)[n] == 'e');
    assert(standings[n] == 't');
    assert(matches[n] == 't');
    if standings == matches {
        lemma_same_start(rounds, id_segment(id1) + rest1, id_segment(id2) + rest2);
        lemma_id_segment_injective(id1, rest1, id2, rest2);
        assert(rest1[0] == 's');
        assert(rest2[0] == 'm');
    }
}

/// Bytes are encoded one by one.
proof fn lemma_form_bytes_flatten(bytes: Seq<u8>)
    ensures
        form_bytes(bytes) == bytes.map_values(|b: u8| form_byte(b)).flatten(),
    decreases bytes.len(),
{
    let all = bytes.map_values(|b: u8| form_byte(b));
    if bytes.len() > 0 {
        lemma_form_bytes_flatten(bytes.skip(1));
        assert(all.drop_first() =~= bytes.skip(1).map_values(|b: u8| form_byte(b)));
    }
}

/// A text is encoded byte by byte.  Letters, digits and the characters `*`, `-`, `.` and `_` stand
/// for themselves, a space becomes `+`, and any other byte becomes `%` and its two hexadecimal
/// digits.
pub proof fn law_text_is_encoded_byte_by_byte(s: Seq<char>)
    ensures
        form_text(s) == encode_utf8(s).map_values(
            |b: u8|
                if 48 <= b <= 57 || 65 <= b <= 90 || 97 <= b <= 122 || b == 42 || b == 45 || b == 46
                    || b == 95 {
                    seq![b as char]
                } else if b == 32 {
                    seq!['+']
                } else {
                    seq![
                        '%',
                        "0123456789ABCDEF"@[b as int / 16],
                        "0123456789ABCDEF"@[b as int % 16],
                    ]
                },
        ).flatten(),
{
    reveal_strlit("0123456789ABCDEF");
    let bytes = encode_utf8(s);
    lemma_form_bytes_flatten(bytes);
    let stated = bytes.map_values(
        |b: u8|
            if 48 <= b <= 57 || 65 <= b <= 90 || 97 <= b <= 122 || b == 42 || b == 45 || b == 46
                || b == 95 {
                seq![b as char]
            } else if b == 32 {
                seq!['+']
            } else {
                seq![
                    '%',
                    "0123456789ABCDEF"@[b as int / 16],
                    "0123456789ABCDEF"@[b as int % 16],
                ]
            },
    );
    assert(stated =~= bytes.map_values(|b: u8| form_byte(b)));
}

/// A text that is made of characters that stand for themselves is not changed.
proof fn lemma_form_text_plain(s: Seq<char>)
    requires
        forall|i: int|
            0 <= i < s.len() ==> is_digit(#[trigger] s[i]) || 'a' <= s[i] <= 'z' || s[i] == '_',
    ensures
        form_text(s) == s,
{
    assert(vstd::utf8::is_ascii_chars(s));
    vstd::utf8::is_ascii_chars_encode_utf8(s);
    let bytes = encode_utf8(s);
    lemma_form_bytes_flatten(bytes);
    assert forall|i: int| 0 <= i < s.len() implies form_byte(bytes[i]) == seq![s[i]] by {
        assert(s[i] as u8 == bytes[i]);
        assert(bytes[i] as char == s[i]);
    }
    let one_by_one = s.map_values(|c: char| seq![c]);
    assert(bytes.map_values(|b: u8| form_byte(b)) =~= one_by_one);
    lemma_flatten_characters(s);
}

proof fn lemma_flatten_characters(s: Seq<char>)
    ensures
        s.map_values(|c: char| seq![c]).flatten() == s,
    decreases s.len(),
{
    let all = s.map_values(|c: char| seq![c]);
    if s.len() > 0 {
        lemma_flatten_characters(s.skip(1));
        assert(all.drop_first() =~= s.skip(1).map_values(|c: char| seq![c]));
        assert(s =~= seq![s[0]] + s.skip(1));
    } else {
        assert(all.flatten() =~= s);
    }
}

/// The query of a page in full.
proof fn lemma_page_query_text(size: usize, page: u32, name: Option<Seq<char>>)
    ensures
        query_text(page_pairs(size, page, name)) == "page_size="@ + decimal(size as nat)
            + "&page="@ + decimal(page as nat) + (match name {
            Some(name) => "&player_name="@ + form_text(name),
            None => Seq::empty(),
        }),
{
    reveal_strlit("page_size");
    reveal_strlit("page");
    reveal_strlit("player_name");
    reveal_strlit("page_size=");
    reveal_strlit("&page=");
    reveal_strlit("&player_name=");
    lemma_page_query(size, page, name);
    lemma_form_text_plain("page_size"@);
    lemma_form_text_plain("page"@);
    lemma_form_text_plain("player_name"@);
    lemma_decimal_digits(size as nat);
    lemma_decimal_digits(page as nat);
    lemma_form_text_plain(decimal(size as nat));
    lemma_form_text_plain(decimal(page as nat));
    assert(query_text(page_pairs(size, page, name)) =~= "page_size="@ + decimal(size as nat)
        + "&page="@ + decimal(page as nat) + (match name {
        Some(name) => "&player_name="@ + form_text(name),
        None => Seq::empty(),
    }));
}

/// An event, its registrations and a round are found under their number; the number reads back
/// from the address.
pub proof fn law_resources_are_found_under_their_number(id: u32)
    ensures
        event_address(id)
            == "https://api.cloudflare.riftbound.uvsgames.com/hydraproxy/api/v2/events/"@
            + decimal(id as nat) + "/"@,
        registrations_address(id)
            == "https://api.cloudflare.riftbound.uvsgames.com/hydraproxy/api/v2/events/"@
            + decimal(id as nat) + "/registrations/"@,
        tournament_rounds_address(id)
            == "https://api.cloudflare.riftbound.uvsgames.com/hydraproxy/api/v2/tournament-rounds/"@
            + decimal(id as nat) + "/"@,
{
    reveal_strlit("https://api.cloudflare.riftbound.uvsgames.com/hydraproxy/api/v2/");
    reveal_strlit("https://api.cloudflare.riftbound.uvsgames.com/hydraproxy/api/v2/events/");
    reveal_strlit(
        "https://api.cloudflare.riftbound.uvsgames.com/hydraproxy/api/v2/tournament-rounds/",
    );
    reveal_strlit("events/");
    reveal_strlit("tournament-rounds/");
    reveal_strlit("registrations/");
    reveal_strlit("/registrations/");
    reveal_strlit("/");
    assert(event_address(id)
        =~= "https://api.cloudflare.riftbound.uvsgames.com/hydraproxy/api/v2/events/"@ + decimal(
        id as nat,
    ) + "/"@);
    assert(registrations_address(id)
        =~= "https://api.cloudflare.riftbound.uvsgames.com/hydraproxy/api/v2/events/"@ + decimal(
        id as nat,
    ) + "/registrations/"@);
    assert(tournament_rounds_address(id)
        =~= "https://api.cloudflare.riftbound.uvsgames.com/hydraproxy/api/v2/tournament-rounds/"@
        + decimal(id as nat) + "/"@);
}

/// The address of a page says, each under its name, how large the page is, which one it is, and,
/// where it is about one player, who that is.
pub proof fn law_page_addresses_say_what_is_asked(
    id: u32,
    page_size: usize,
    page: u32,
    player_name: Option<Seq<char>>,
)
    ensures
        ({
            let query = "?page_size="@ + decimal(page_size as nat) + "&page="@ + decimal(
                page as nat,
            ) + (match player_name {
                Some(name) => "&player_name="@ + form_text(name),
                None => Seq::empty(),
            });
            let round =
                "https://api.cloudflare.riftbound.uvsgames.com/hydraproxy/api/v2/tournament-rounds/"@
                + decimal(id as nat);
            &&& standings_address(id, page_size, page, player_name) == round
                + "/standings/paginated/"@ + query
            &&& matches_address(id, page_size, page, player_name) == round + "/matches/paginated/"@
                + query
        }),
{
    let pairs = query_text(page_pairs(page_size, page, player_name));
    let tail = match player_name {
        Some(name) => "&player_name="@ + form_text(name),
        None => Seq::empty(),
    };
    let query = "?page_size="@ + decimal(page_size as nat) + "&page="@ + decimal(page as nat)
        + tail;
    let round =
        "https://api.cloudflare.riftbound.uvsgames.com/hydraproxy/api/v2/tournament-rounds/"@
        + decimal(id as nat);
    lemma_page_query_text(page_size, page, player_name);
    law_resources_are_found_under_their_number(id);
    reveal_strlit("page_size=");
    reveal_strlit("?page_size=");
    reveal_strlit("/");
    reveal_strlit("standings/paginated/");
    reveal_strlit("/standings/paginated/");
    reveal_strlit("matches/paginated/");
    reveal_strlit("/matches/paginated/");
    assert(query =~= seq!['?'] + pairs);
    assert("/standings/paginated/"@ =~= "/"@ + "standings/paginated/"@);
    assert("/matches/paginated/"@ =~= "/"@ + "matches/paginated/"@);
    assert(standings_address(id, page_size, page, player_name) =~= round
        + "/standings/paginated/"@ + query);
    assert(matches_address(id, page_size, page, player_name) =~= round + "/matches/paginated/"@
        + query);
}

/// A deck is whatever its id joins to, below the decks of the deck builder.
pub proof fn law_deck_is_found_below_the_deck_builder(deck_id: Seq<char>)
    ensures
        deck_address(deck_id) == joined_url(
            "https://api.cloudflare.riftbound.uvsgames.com/hydraproxy/api/v2/deckbuilder/decks/"@,
            deck_id,
        ),
{
    reveal_strlit("https://api.cloudflare.riftbound.uvsgames.com/hydraproxy/api/v2/");
    reveal_strlit("deckbuilder/decks/");
    reveal_strlit(
        "https://api.cloudflare.riftbound.uvsgames.com/hydraproxy/api/v2/deckbuilder/decks/",
    );
    assert(API_URL@ + "deckbuilder/decks/"@
        =~= "https://api.cloudflare.riftbound.uvsgames.com/hydraproxy/api/v2/deckbuilder/decks/"@);
}

/// A name that may be missing is missing or the same text.
pub proof fn law_missing_names_stay_missing(name: &str)
    ensures
        opt_view(Some(name)) == Some(name@),
        opt_view(None) is None,
{
}

} // verus!
