//! Lists that the service hands out page by page.
use crate::model::{Match, PaginationResult, StandingsResult};
use crate::urls::{matches_address, matches_url, standings_address, standings_url};
use vstd::prelude::*;

verus! {

/// The largest page to ask for.
pub const PAGE_LIMIT: usize = 500;

/// The views of the pages of a list.
pub open spec fn page_views<T>(pages: Seq<Vec<T>>) -> Seq<Seq<T>> {
    pages.map_values(|page: Vec<T>| page@)
}

/// A list that the service hands out page by page.
pub trait Paginated: Sized {
    type Single;

    /// Where page `page` of list `id` is found.
    spec fn page_address(id: u32, page_size: usize, page: u32) -> Seq<char>;

    /// The items of the list, in order.
    spec fn items(&self) -> Seq<Self::Single>;

    fn page_url(id: u32, page_size: usize, page: u32) -> (url: String)
        ensures
            url@ == Self::page_address(id, page_size, page),
    ;

    /// Puts the pages together, in order.
    fn construct(pages: Vec<Vec<Self::Single>>) -> (list: Self)
        ensures
            list.items() == page_views(pages@).flatten(),
    ;
}

/// The pages one after the other.
fn concatenate<T>(pages: Vec<Vec<T>>) -> (items: Vec<T>)
    ensures
        items@ == page_views(pages@).flatten(),
{
    let mut items: Vec<T> = Vec::new();
    for page in iter: pages
        invariant
            iter.seq() == pages@,
            items@ == page_views(iter.seq().take(iter.index())).flatten(),
    {
        let mut page = page;
        let ghost done = page_views(iter.seq().take(iter.index()));
        let ghost added = page@;
        items.append(&mut page);
        proof {
            done.lemma_flatten_push(added);
            assert(page_views(iter.seq().take(iter.index() + 1)) =~= done.push(added));
        }
    }
    assert(pages@.take(pages@.len() as int) =~= pages@);
    items
}

/// The standings after a round.
#[derive(Debug)]
pub struct Standings {
    pub standings: Vec<StandingsResult>,
}

impl Default for Standings {
    fn default() -> (standings: Self)
        ensures
            standings.standings@.len() == 0,
    {
        Standings { standings: Vec::new() }
    }
}

impl Paginated for Standings {
    type Single = StandingsResult;

    open spec fn page_address(id: u32, page_size: usize, page: u32) -> Seq<char> {
        standings_address(id, page_size, page, None)
    }

    open spec fn items(&self) -> Seq<StandingsResult> {
        self.standings@
    }

    fn page_url(id: u32, page_size: usize, page: u32) -> (url: String) {
        standings_url(id, page_size, page, None)
    }

    fn construct(pages: Vec<Vec<StandingsResult>>) -> (list: Standings) {
        Standings { standings: concatenate(pages) }
    }
}

/// The matches of a round.
#[derive(Debug)]
pub struct Matches {
    pub matches: Vec<Match>,
}

impl Paginated for Matches {
    type Single = Match;

    open spec fn page_address(id: u32, page_size: usize, page: u32) -> Seq<char> {
        matches_address(id, page_size, page, None)
    }

    open spec fn items(&self) -> Seq<Match> {
        self.matches@
    }

    fn page_url(id: u32, page_size: usize, page: u32) -> (url: String) {
        matches_url(id, page_size, page, None)
    }

    fn construct(pages: Vec<Vec<Match>>) -> (list: Matches) {
        Matches { matches: concatenate(pages) }
    }
}

/// A list that is being collected: what has come in, and which page comes next.
pub ghost struct Collected<T> {
    pub id: u32,
    /// How many items are wanted, where there is a limit.
    pub max: Option<usize>,
    pub pages: Seq<Seq<T>>,
    /// The page to ask for; none once the list is complete.
    pub next_page: Option<u32>,
}

impl<T> Collected<T> {
    pub open spec fn items(self) -> Seq<T> {
        self.pages.flatten()
    }

    pub open spec fn total(self) -> nat {
        self.items().len()
    }

    pub open spec fn starting(id: u32, max: Option<usize>) -> Self {
        Collected { id, max, pages: Seq::empty(), next_page: Some(1) }
    }

    /// The size of the page to ask for: no more than is still wanted, and no more than a page
    /// may hold.
    pub open spec fn page_size(self) -> int {
        match self.max {
            Some(max) if max - self.total() < PAGE_LIMIT => max - self.total(),
            _ => PAGE_LIMIT as int,
        }
    }

    /// The limit, where there is one, has been reached.
    pub open spec fn is_full(self) -> bool {
        self.max matches Some(max) && self.total() >= max
    }

    /// The list after one more page.
    pub open spec fn accepting(self, results: Seq<T>, next_page_number: Option<u32>) -> Self {
        let pages = self.pages.push(results);
        let more = Collected { pages, ..self };
        Collected {
            next_page: if more.is_full() {
                None
            } else {
                next_page_number
            },
            ..more
        }
    }

    /// Only a list that has not reached its limit asks for another page; the first page is
    /// asked for in any case.
    pub open spec fn is_consistent(self) -> bool {
        self.next_page is Some && self.is_full() ==> self.pages.len() == 0
    }
}

/// Collects a list page by page.
pub struct Pagination<P: Paginated> {
    id: u32,
    max: Option<usize>,
    pages: Vec<Vec<P::Single>>,
    total: usize,
    next_page: Option<u32>,
}

impl<P: Paginated> View for Pagination<P> {
    type V = Collected<P::Single>;

    closed spec fn view(&self) -> Collected<P::Single> {
        Collected {
            id: self.id,
            max: self.max,
            pages: page_views(self.pages@),
            next_page: self.next_page,
        }
    }
}

impl<P: Paginated> Pagination<P> {
    #[verifier::type_invariant]
    spec fn is_valid(self) -> bool {
        self.total == self@.total() && self@.is_consistent()
    }

    /// Starts to collect list `id`: all of it, or pages until at least `max` items are in.
    pub fn start(id: u32, max: Option<usize>) -> (list: Self)
        ensures
            list@ == Collected::<P::Single>::starting(id, max),
    {
        let pages: Vec<Vec<P::Single>> = Vec::new();
        assert(page_views(pages@) =~= Seq::empty());
        Pagination { id, max, pages, total: 0, next_page: Some(1) }
    }

    /// The address of the page to fetch next; none once the list is complete.
    pub fn next_url(&self) -> (url: Option<String>)
        ensures
            match self@.next_page {
                Some(page) => url matches Some(text) && text@ == P::page_address(
                    self@.id,
                    self@.page_size() as usize,
                    page,
                ),
                None => url is None,
            },
            self@.is_consistent(),
    {
        proof {
            use_type_invariant(self);
            if self@.pages.len() == 0 {
                assert(self@.total() == 0);
            }
        }
        match self.next_page {
            Some(page) => {
                let page_size: usize = match self.max {
                    Some(max) => {
                        let wanted: usize = max - self.total;
                        if wanted < PAGE_LIMIT {
                            wanted
                        } else {
                            PAGE_LIMIT
                        }
                    },
                    None => PAGE_LIMIT,
                };
                Some(P::page_url(self.id, page_size, page))
            },
            None => None,
        }
    }

    /// Whether the list can still count its items after `page`.
    pub fn can_accept(&self, page: &PaginationResult<P::Single>) -> (fits: bool)
        ensures
            fits == (self@.total() + page.results@.len() <= usize::MAX),
    {
        proof {
            use_type_invariant(self);
        }
        page.results.len() <= usize::MAX - self.total
    }

    /// Takes in the page that was fetched.
    pub fn accept(self, page: PaginationResult<P::Single>) -> (list: Self)
        requires
            self@.total() + page.results@.len() <= usize::MAX,
        ensures
            list@ == self@.accepting(page.results@, page.next_page_number),
    {
        proof {
            use_type_invariant(&self);
        }
        let ghost before = self@;
        let total: usize = self.total + page.results.len();
        let mut pages = self.pages;
        pages.push(page.results);
        let full: bool = match self.max {
            Some(max) => total >= max,
            None => false,
        };
        let next_page = if full {
            None
        } else {
            page.next_page_number
        };
        proof {
            before.pages.lemma_flatten_push(page.results@);
            assert(page_views(pages@) =~= before.pages.push(page.results@));
        }
        Pagination { id: self.id, max: self.max, pages, total, next_page }
    }

    /// The list, made of the pages that have come in.
    pub fn finish(self) -> (list: P)
        ensures
            list.items() == self@.items(),
    {
        P::construct(self.pages)
    }
}

/// A list that takes in the given replies, each the results of a page and the number of the
/// page after it.
pub open spec fn collecting<T>(list: Collected<T>, replies: Seq<(Seq<T>, Option<u32>)>) -> Collected<
    T,
>
    decreases replies.len(),
{
    if replies.len() == 0 {
        list
    } else {
        let reply = replies.last();
        collecting(list, replies.drop_last()).accepting(reply.0, reply.1)
    }
}

/// The results of the replies, one after the other.
pub open spec fn all_results<T>(replies: Seq<(Seq<T>, Option<u32>)>) -> Seq<T> {
    replies.map_values(|reply: (Seq<T>, Option<u32>)| reply.0).flatten()
}

/// Whatever the service replies, a list holds exactly the results that came in, in the order of
/// the pages; it keeps its number and its limit, and asks for another page only where the last
/// reply named one and the limit is not reached.
pub proof fn law_list_is_what_came_in<T>(
    id: u32,
    max: Option<usize>,
    replies: Seq<(Seq<T>, Option<u32>)>,
)
    ensures
        ({
            let list = collecting(Collected::<T>::starting(id, max), replies);
            &&& list.items() == all_results(replies)
            &&& list.id == id
            &&& list.max == max
            &&& list.pages.len() == replies.len()
            &&& list.is_consistent()
            &&& replies.len() > 0 ==> (list.next_page == if list.is_full() {
                None
            } else {
                replies.last().1
            })
        }),
    decreases replies.len(),
{
    let results = |reply: (Seq<T>, Option<u32>)| reply.0;
    if replies.len() == 0 {
        assert(replies.map_values(results) =~= Seq::empty());
    } else {
        law_list_is_what_came_in(id, max, replies.drop_last());
        let before = collecting(Collected::<T>::starting(id, max), replies.drop_last());
        before.pages.lemma_flatten_push(replies.last().0);
        replies.drop_last().map_values(results).lemma_flatten_push(replies.last().0);
        assert(replies.map_values(results) =~= replies.drop_last().map_values(results).push(
            replies.last().0,
        ));
    }
}

/// A page that is asked for is never larger than a page may be, nor larger than what is still
/// wanted; it is empty only where nothing was ever wanted.
pub proof fn law_page_size_is_bounded<T>(list: Collected<T>)
    requires
        list.is_consistent(),
        list.next_page is Some,
    ensures
        0 <= list.page_size() <= PAGE_LIMIT,
        list.max matches Some(max) ==> list.total() + list.page_size() <= max,
        list.page_size() == 0 ==> list.max == Some(0usize),
{
    if list.pages.len() == 0 {
        assert(list.total() == 0);
    }
}

/// While the service sends no more than was asked for, a list never outgrows its limit.
pub proof fn law_limit_is_kept<T>(list: Collected<T>, results: Seq<T>, next: Option<u32>)
    requires
        list.is_consistent(),
        list.next_page is Some,
        results.len() <= list.page_size(),
    ensures
        list.accepting(results, next).max matches Some(max) ==> list.accepting(
            results,
            next,
        ).total() <= max,
{
    law_page_size_is_bounded(list);
    list.pages.lemma_flatten_push(results);
}

/// A list starts with nothing, and asks for its first page.
pub proof fn law_list_starts_at_the_first_page<T>(id: u32, max: Option<usize>)
    ensures
        ({
            let list = Collected::<T>::starting(id, max);
            &&& list.id == id
            &&& list.max == max
            &&& list.pages.len() == 0
            &&& list.items().len() == 0
            &&& list.next_page == Some(1u32)
        }),
{
}

/// A reply is added behind what came before, and changes nothing else.  Where it names a next
/// page, that page is asked for, unless there is a limit and as many items as that have come in:
/// without a limit, or below it, the list goes on.
pub proof fn law_list_goes_on_until_its_limit<T>(
    list: Collected<T>,
    results: Seq<T>,
    next: Option<u32>,
)
    ensures
        ({
            let after = list.accepting(results, next);
            let came = list.pages.flatten().len() + results.len();
            &&& after.id == list.id
            &&& after.max == list.max
            &&& after.pages == list.pages.push(results)
            &&& after.items() == list.pages.flatten() + results
            &&& after.total() == came
            &&& match list.max {
                None => after.next_page == next,
                Some(max) => if came < max {
                    after.next_page == next
                } else {
                    after.next_page is None
                },
            }
        }),
{
    list.pages.lemma_flatten_push(results);
}

/// A list asks for as many items as are still missing to its limit, but never for more than five
/// hundred at once, and for five hundred where there is no limit.
pub proof fn law_page_asks_for_what_is_missing<T>(list: Collected<T>)
    ensures
        list.max is None ==> list.page_size() == 500,
        list.max matches Some(max) ==> {
            let missing = max - list.pages.flatten().len();
            &&& missing < 500 ==> list.page_size() == missing
            &&& missing >= 500 ==> list.page_size() == 500
        },
{
}

/// The pages of the standings and of the matches of a round are those of all players.
pub proof fn law_lists_are_about_everyone(
    id: u32,
    page_size: usize,
    page: u32,
    standings: Standings,
    matches: Matches,
)
    ensures
        Standings::page_address(id, page_size, page) == standings_address(
            id,
            page_size,
            page,
            None,
        ),
        Matches::page_address(id, page_size, page) == matches_address(id, page_size, page, None),
        standings.items() == standings.standings@,
        matches.items() == matches.matches@,
{
}

/// The views of pages hold every item of every page, in order.
pub proof fn law_page_views_hold_every_item<T>(pages: Seq<Vec<T>>)
    ensures
        page_views(pages).len() == pages.len(),
        forall|i: int| 0 <= i < pages.len() ==> #[trigger] page_views(pages)[i] == pages[i]@,
{
}

/// The results of any number of replies are put together page after page.
pub proof fn law_results_are_put_together<T>(
    replies: Seq<(Seq<T>, Option<u32>)>,
    reply: (Seq<T>, Option<u32>),
)
    ensures
        all_results(Seq::<(Seq<T>, Option<u32>)>::empty()).len() == 0,
        all_results(replies.push(reply)) == all_results(replies) + reply.0,
{
    let results = |reply: (Seq<T>, Option<u32>)| reply.0;
    replies.map_values(results).lemma_flatten_push(reply.0);
    assert(replies.push(reply).map_values(results) =~= replies.map_values(results).push(reply.0));
    assert(Seq::<(Seq<T>, Option<u32>)>::empty().map_values(results) =~= Seq::empty());
}

} // verus!
