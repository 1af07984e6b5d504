use riftbound_events::model::{
    Match, MatchResult, MatchResultCompleted, MatchStatus, PaginationResult,
};
use riftbound_events::pagination::{Matches, Paginated, Pagination, Standings};
use riftbound_events::urls::matches_url;

fn a_match(id: u32) -> Match {
    Match {
        id,
        status: MatchStatus::Complete,
        table_number: None,
        player_match_relationships: vec![],
        results: MatchResult::Complete(MatchResultCompleted::Bye),
    }
}

fn page(ids: std::ops::Range<u32>, next_page_number: Option<u32>) -> PaginationResult<Match> {
    PaginationResult {
        next_page_number,
        results: ids.map(a_match).collect(),
    }
}

fn ids(list: &Matches) -> Vec<u32> {
    list.matches.iter().map(|m| m.id).collect()
}

#[test]
fn first_page_is_number_one_and_full_size() {
    let list = Pagination::<Matches>::start(8, None);
    assert_eq!(list.next_url(), Some(matches_url(8, 500, 1, None)));
}

#[test]
fn small_limits_shrink_the_page() {
    let list = Pagination::<Matches>::start(8, Some(20));
    assert_eq!(list.next_url(), Some(matches_url(8, 20, 1, None)));
    let list = Pagination::<Matches>::start(8, Some(501));
    assert_eq!(list.next_url(), Some(matches_url(8, 500, 1, None)));
}

#[test]
fn a_limit_of_nothing_still_asks_once() {
    let list = Pagination::<Matches>::start(8, Some(0));
    assert_eq!(list.next_url(), Some(matches_url(8, 0, 1, None)));
    let list = list.accept(page(0..0, Some(2)));
    assert_eq!(list.next_url(), None);
}

#[test]
fn pages_are_followed_until_the_last() {
    let list = Pagination::<Matches>::start(8, None);
    let list = list.accept(page(0..2, Some(2)));
    assert_eq!(list.next_url(), Some(matches_url(8, 500, 2, None)));
    let list = list.accept(page(2..5, Some(7)));
    assert_eq!(list.next_url(), Some(matches_url(8, 500, 7, None)));
    let list = list.accept(page(5..6, None));
    assert_eq!(list.next_url(), None);
    assert_eq!(ids(&list.finish()), vec![0, 1, 2, 3, 4, 5]);
}

#[test]
fn the_limit_ends_the_list() {
    let list = Pagination::<Matches>::start(8, Some(5));
    assert!(list.can_accept(&page(0..3, Some(2))));
    let list = list.accept(page(0..3, Some(2)));
    assert_eq!(list.next_url(), Some(matches_url(8, 2, 2, None)));
    let list = list.accept(page(3..5, Some(3)));
    assert_eq!(list.next_url(), None);
    assert_eq!(ids(&list.finish()), vec![0, 1, 2, 3, 4]);
}

#[test]
fn what_comes_beyond_the_limit_is_kept() {
    let list = Pagination::<Matches>::start(8, Some(2));
    let list = list.accept(page(0..4, Some(2)));
    assert_eq!(list.next_url(), None);
    assert_eq!(ids(&list.finish()), vec![0, 1, 2, 3]);
}

#[test]
fn lists_are_the_concatenation_of_their_pages() {
    let pages = vec![
        vec![a_match(3), a_match(1)],
        vec![],
        vec![a_match(2)],
    ];
    assert_eq!(ids(&Matches::construct(pages)), vec![3, 1, 2]);
    assert!(Standings::construct(vec![]).standings.is_empty());
    assert!(Standings::default().standings.is_empty());
}
