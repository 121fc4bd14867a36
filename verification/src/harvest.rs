//! Harvesting: the URLs of the search results are gathered page by page,
//! each once and in the order of first arrival, until the limit is reached or
//! the pages end.

use crate::options::Options;
use crate::query::{first_request, query_text, SearchRequest};
use crate::target::{is_well_formed_url, target_dir_name, target_name, well_formed_url};
use crate::url_set::UrlSet;
use vstd::prelude::*;

verus! {

/// One search result, as the harvest reads it: its clone URL, if it has one.
pub type ItemView = Option<Seq<char>>;

/// One page of search results.
pub type PageView = Seq<Option<Seq<char>>>;

/// The rules that decide which URLs a harvest takes.
pub struct Rules {
    /// The greatest number of URLs taken.
    pub limit: nat,
    /// Whether a URL is passed over when its target directory is there already.
    pub skip_present: bool,
    /// The names of the directories that stand in the base directory.
    pub present: Seq<Seq<char>>,
}

/// The rules that `options` ask for, with `present` in the base directory.
/// What is on disk counts only when repositories are to be downloaded.
pub open spec fn rules_of(options: Options, present: Seq<Seq<char>>) -> Rules {
    Rules { limit: options.limit as nat, skip_present: !options.no_download, present }
}

/// Whether the rules pass `url` over because its target directory exists.
pub open spec fn on_disk(rules: Rules, url: Seq<char>) -> bool {
    rules.skip_present && rules.present.contains(target_dir_name(url))
}

/// Whether an item counts at all: it has a clone URL, and the rules do not pass
/// that URL over.
pub open spec fn matching(rules: Rules, item: ItemView) -> bool {
    item matches Some(url) && !on_disk(rules, url)
}

/// Whether an item brings a URL that `urls` lacks.
pub open spec fn brings_new(rules: Rules, urls: Seq<Seq<char>>, item: ItemView) -> bool {
    matching(rules, item) && !urls.contains(item->0)
}

/// `urls` after one item was looked at. The item's URL is added at the end if
/// there is room and the item brings a new one.
pub open spec fn offered(rules: Rules, urls: Seq<Seq<char>>, item: ItemView) -> Seq<Seq<char>> {
    if urls.len() < rules.limit && brings_new(rules, urls, item) {
        urls.push(item->0)
    } else {
        urls
    }
}

/// `urls` after the items were looked at one after the other.
pub open spec fn pulled(rules: Rules, urls: Seq<Seq<char>>, items: PageView) -> Seq<Seq<char>>
    decreases items.len(),
{
    if items.len() == 0 {
        urls
    } else {
        offered(rules, pulled(rules, urls, items.drop_last()), items.last())
    }
}

/// The URLs of the matching items, each once, in the order in which they are
/// first seen.
pub open spec fn first_seen(rules: Rules, items: PageView) -> Seq<Seq<char>>
    decreases items.len(),
{
    if items.len() == 0 {
        Seq::<Seq<char>>::empty()
    } else {
        let before = first_seen(rules, items.drop_last());
        if brings_new(rules, before, items.last()) {
            before.push(items.last()->0)
        } else {
            before
        }
    }
}

/// A full result set takes nothing more.
pub proof fn lemma_full_takes_nothing(rules: Rules, urls: Seq<Seq<char>>, items: PageView)
    requires
        urls.len() >= rules.limit,
    ensures
        pulled(rules, urls, items) == urls,
    decreases items.len(),
{
    if items.len() > 0 {
        lemma_full_takes_nothing(rules, urls, items.drop_last());
    }
}

/// Looking at two runs of items in turn is looking at them as one run.
pub proof fn lemma_pulled_in_turn(rules: Rules, urls: Seq<Seq<char>>, a: PageView, b: PageView)
    ensures
        pulled(rules, urls, a + b) == pulled(rules, pulled(rules, urls, a), b),
    decreases b.len(),
{
    if b.len() == 0 {
        assert(a + b =~= a);
    } else {
        lemma_pulled_in_turn(rules, urls, a, b.drop_last());
        assert((a + b).drop_last() =~= a + b.drop_last());
    }
}

/// Pulling only adds at the end, never beyond the limit, and no URL twice.
pub proof fn lemma_pulled_grows(rules: Rules, urls: Seq<Seq<char>>, items: PageView)
    ensures
        urls.is_prefix_of(pulled(rules, urls, items)),
        urls.len() <= rules.limit ==> pulled(rules, urls, items).len() <= rules.limit,
        urls.no_duplicates() ==> pulled(rules, urls, items).no_duplicates(),
    decreases items.len(),
{
    if items.len() > 0 {
        lemma_pulled_grows(rules, urls, items.drop_last());
    }
}

/// `s`, cut down to the limit of the rules where it is longer.
pub open spec fn capped(rules: Rules, s: Seq<Seq<char>>) -> Seq<Seq<char>> {
    if s.len() <= rules.limit {
        s
    } else {
        s.take(rules.limit as int)
    }
}

/// Pulling into an empty set gives the first-seen URLs, as many as the limit
/// lets in.
pub proof fn lemma_pulled_is_capped_first_seen(rules: Rules, items: PageView)
    ensures
        pulled(rules, Seq::<Seq<char>>::empty(), items) == capped(rules, first_seen(rules, items)),
    decreases items.len(),
{
    if items.len() > 0 {
        let front = items.drop_last();
        lemma_pulled_is_capped_first_seen(rules, front);
        let all = first_seen(rules, front);
        let got = pulled(rules, Seq::<Seq<char>>::empty(), front);
        if got.len() < rules.limit {
            assert(got == all);
        } else {
            assert(first_seen(rules, items).take(rules.limit as int) =~= all.take(
                rules.limit as int,
            ));
        }
    }
}

/// No URL is first seen twice.
pub proof fn lemma_first_seen_distinct(rules: Rules, items: PageView)
    ensures
        first_seen(rules, items).no_duplicates(),
    decreases items.len(),
{
    if items.len() > 0 {
        lemma_first_seen_distinct(rules, items.drop_last());
    }
}

/// The first-seen URLs are those of the matching items, all of them.
pub proof fn lemma_first_seen_members(rules: Rules, items: PageView, url: Seq<char>)
    ensures
        first_seen(rules, items).contains(url) <==> items.contains(Some(url)) && !on_disk(
            rules,
            url,
        ),
    decreases items.len(),
{
    if items.len() > 0 {
        let front = items.drop_last();
        let before = first_seen(rules, front);
        lemma_first_seen_members(rules, front, url);
        if items.contains(Some(url)) {
            let i = choose|i: int| 0 <= i < items.len() && items[i] == Some(url);
            if i < front.len() {
                assert(front[i] == Some(url));
            }
        }
        if front.contains(Some(url)) {
            let i = choose|i: int| 0 <= i < front.len() && front[i] == Some(url);
            assert(items[i] == Some(url));
        }
        if items.last() == Some(url) {
            assert(items[items.len() - 1] == Some(url));
        }
        if brings_new(rules, before, items.last()) {
            let out = before.push(items.last()->0);
            assert(out[out.len() - 1] == items.last()->0);
            if before.contains(url) {
                let j = choose|j: int| 0 <= j < before.len() && before[j] == url;
                assert(out[j] == url);
            }
        }
    }
}

/// What was first seen stays where it is while more items are looked at.
pub proof fn lemma_first_seen_grows(rules: Rules, items: PageView, n: int)
    requires
        0 <= n <= items.len(),
    ensures
        first_seen(rules, items.take(n)).is_prefix_of(first_seen(rules, items)),
    decreases items.len(),
{
    if n == items.len() {
        assert(items.take(n) =~= items);
    } else {
        let front = items.drop_last();
        lemma_first_seen_grows(rules, front, n);
        assert(front.take(n) =~= items.take(n));
    }
}

/// A URL stands in the place in which it was first seen: behind the URLs
/// that were first seen before it, and in front of all others.
pub proof fn lemma_first_seen_position(rules: Rules, items: PageView, i: int)
    requires
        0 <= i < items.len(),
        matching(rules, items[i]),
        forall|j: int| 0 <= j < i ==> items[j] != items[i],
    ensures
        first_seen(rules, items.take(i)).len() < first_seen(rules, items).len(),
        first_seen(rules, items)[first_seen(rules, items.take(i)).len() as int] == items[i]->0,
{
    let url = items[i]->0;
    let upto = items.take(i + 1);
    let before = first_seen(rules, items.take(i));
    assert(upto.drop_last() =~= items.take(i));
    lemma_first_seen_members(rules, items.take(i), url);
    if items.take(i).contains(Some(url)) {
        let j = choose|j: int| 0 <= j < i && items.take(i)[j] == Some(url);
        assert(items[j] == items[i]);
    }
    assert(first_seen(rules, upto) == before.push(url));
    lemma_first_seen_grows(rules, items, i + 1);
    let all = first_seen(rules, items);
    let at = before.len() as int;
    assert(all.subrange(0, at + 1)[at] == before.push(url)[at]);
}

/// A page of search results.
pub struct Page {
    /// The clone URL of each result, where the result has one.
    pub items: Vec<Option<String>>,
}

impl View for Page {
    type V = Seq<Option<Seq<char>>>;

    open spec fn view(&self) -> Seq<Option<Seq<char>>> {
        self.items.deep_view()
    }
}

/// Whether every URL of the page can be named.
pub open spec fn nameable(page: PageView) -> bool {
    forall|i: int| 0 <= i < page.len() ==> (#[trigger] page[i] matches Some(url) ==> well_formed_url(url))
}

impl Page {
    /// Whether every URL of the page can be named.
    pub fn is_nameable(&self) -> (ok: bool)
        ensures
            ok == nameable(self@),
    {
        let mut i: usize = 0;
        while i < self.items.len()
            invariant
                i <= self.items.len(),
                forall|j: int|
                    0 <= j < i ==> (#[trigger] self@[j] matches Some(url) ==> well_formed_url(url)),
            decreases self.items.len() - i,
        {
            match &self.items[i] {
                Some(url) => {
                    if !is_well_formed_url(url.as_str()) {
                        assert(self@[i as int] == Some(url@));
                        return false;
                    }
                },
                None => {},
            }
            i = i + 1;
        }
        true
    }
}

/// Whether `name` is among `present`.
fn is_present(present: &Vec<String>, name: &String) -> (found: bool)
    ensures
        found == present.deep_view().contains(name@),
{
    let mut i: usize = 0;
    while i < present.len()
        invariant
            i <= present.len(),
            forall|j: int| 0 <= j < i ==> present.deep_view()[j] != name@,
        decreases present.len() - i,
    {
        if present[i] == *name {
            assert(present.deep_view()[i as int] == name@);
            return true;
        }
        i = i + 1;
    }
    false
}

/// Takes the URLs of one page into `urls`: each item's clone URL, unless the
/// item has none, `urls` holds it already, or (when repositories are to be
/// downloaded) its target directory is among `present`. Nothing is taken
/// once `urls` holds `options.limit` URLs. Returns whether the limit is
/// reached.
pub fn pull_items(page: &Page, urls: &mut UrlSet, options: &Options, present: &Vec<String>) -> (done: bool)
    requires
        !options.no_download ==> nameable(page@),
    ensures
        final(urls)@ == pulled(rules_of(*options, present.deep_view()), old(urls)@, page@),
        done == (final(urls)@.len() >= options.limit),
        old(urls)@.is_prefix_of(final(urls)@),
        old(urls)@.len() <= options.limit ==> final(urls)@.len() <= options.limit,
{
    let ghost rules = rules_of(*options, present.deep_view());
    let ghost start = urls@;
    let held: usize = urls.len();
    proof {
        lemma_pulled_grows(rules, start, page@);
    }
    if held >= options.limit {
        proof {
            lemma_full_takes_nothing(rules, start, page@);
        }
        return true;
    }
    let mut i: usize = 0;
    assert(page@.take(0) =~= Seq::<Option<Seq<char>>>::empty());
    while i < page.items.len()
        invariant
            i <= page.items.len(),
            rules == rules_of(*options, present.deep_view()),
            start == old(urls)@,
            !options.no_download ==> nameable(page@),
            urls@ == pulled(rules, start, page@.take(i as int)),
            urls@.len() < options.limit,
        decreases page.items.len() - i,
    {
        proof {
            let grown = page@.take(i as int + 1);
            assert(grown.drop_last() =~= page@.take(i as int));
            assert(grown.last() == page@[i as int]);
        }
        match &page.items[i] {
            Some(url) => {
                if !urls.contains(url.as_str()) {
                    let skip = !options.no_download && is_present(present, &target_name(url.as_str()));
                    if !skip {
                        urls.insert(url.clone());
                        if urls.len() >= options.limit {
                            proof {
                                let seen = page@.take(i as int + 1);
                                let rest = page@.skip(i as int + 1);
                                assert(seen + rest =~= page@);
                                lemma_pulled_in_turn(rules, start, seen, rest);
                                lemma_full_takes_nothing(rules, urls@, rest);
                                lemma_pulled_grows(rules, start, page@);
                            }
                            return true;
                        }
                    }
                }
            },
            None => {},
        }
        i = i + 1;
    }
    assert(page@.take(page.items.len() as int) =~= page@);
    false
}

/// Where a harvest stands.
#[derive(Clone, Copy, PartialEq, Eq, Debug, Structural)]
pub enum Phase {
    /// The first request is out; no page has come back yet.
    First,
    /// At least one page was taken and the limit is not reached.
    Paging,
    /// The result set is final.
    Done,
    /// The first request failed: there is no result.
    Aborted,
}

/// What the driver is to do next.
#[derive(Clone, Copy, PartialEq, Eq, Debug, Structural)]
pub enum Next {
    /// Fetch a page (the first one, or the one that follows the last) and
    /// hand in what came of it.
    Fetch,
    /// Stop fetching and use the result set.
    Finish,
    /// Give the run up: the search could not be made at all.
    Abort,
}

/// What came of a fetch.
pub enum Fetched {
    /// A page of results.
    Page(Page),
    /// There is no further page.
    NoMorePages,
    /// The fetch failed.
    Failed,
}

/// What came of a fetch, as the rules read it.
pub enum FetchedView {
    Page(PageView),
    NoMorePages,
    Failed,
}

impl View for Fetched {
    type V = FetchedView;

    open spec fn view(&self) -> FetchedView {
        match self {
            Fetched::Page(page) => FetchedView::Page(page@),
            Fetched::NoMorePages => FetchedView::NoMorePages,
            Fetched::Failed => FetchedView::Failed,
        }
    }
}

/// A harvest, as the rules read it: where it stands and what it holds.
pub struct HarvestModel {
    pub phase: Phase,
    pub urls: Seq<Seq<char>>,
}

/// A harvest before anything came back.
pub open spec fn model_start() -> HarvestModel {
    HarvestModel { phase: Phase::First, urls: Seq::<Seq<char>>::empty() }
}

/// A harvest after what came of one more fetch.
///
/// A page is pulled into the result set, and the harvest is done as soon as the
/// limit is reached. When the pages end, the harvest is done with what it
/// holds. A failed fetch ends it too: without a result if it was the first
/// fetch, with what it holds if it was a later one. A harvest that is done
/// or aborted stays as it is.
pub open spec fn model_step(rules: Rules, model: HarvestModel, fetched: FetchedView) -> HarvestModel {
    match model.phase {
        Phase::Done | Phase::Aborted => model,
        _ => match fetched {
            FetchedView::Page(items) => {
                let urls = pulled(rules, model.urls, items);
                HarvestModel {
                    phase: if urls.len() >= rules.limit {
                        Phase::Done
                    } else {
                        Phase::Paging
                    },
                    urls,
                }
            },
            FetchedView::NoMorePages => HarvestModel { phase: Phase::Done, urls: model.urls },
            FetchedView::Failed => HarvestModel {
                phase: if model.phase == Phase::First {
                    Phase::Aborted
                } else {
                    Phase::Done
                },
                urls: model.urls,
            },
        },
    }
}

/// What the driver is to do in a phase.
pub open spec fn next_of(phase: Phase) -> Next {
    match phase {
        Phase::First | Phase::Paging => Next::Fetch,
        Phase::Done => Next::Finish,
        Phase::Aborted => Next::Abort,
    }
}

/// A harvest after a series of fetches.
pub open spec fn model_run(rules: Rules, fetches: Seq<FetchedView>) -> HarvestModel
    decreases fetches.len(),
{
    if fetches.len() == 0 {
        model_start()
    } else {
        model_step(rules, model_run(rules, fetches.drop_last()), fetches.last())
    }
}

/// The fetches that bring the given pages, one after the other.
pub open spec fn page_fetches(pages: Seq<PageView>) -> Seq<FetchedView> {
    Seq::new(pages.len(), |i: int| FetchedView::Page(pages[i]))
}

/// The items of the pages, in one run.
pub open spec fn all_items(pages: Seq<PageView>) -> PageView
    decreases pages.len(),
{
    if pages.len() == 0 {
        Seq::<Option<Seq<char>>>::empty()
    } else {
        all_items(pages.drop_last()) + pages.last()
    }
}

/// The limit holds throughout, and no URL is held twice.
pub proof fn lemma_run_keeps_limit(rules: Rules, fetches: Seq<FetchedView>)
    ensures
        model_run(rules, fetches).urls.len() <= rules.limit,
        model_run(rules, fetches).urls.no_duplicates(),
    decreases fetches.len(),
{
    if fetches.len() > 0 {
        lemma_run_keeps_limit(rules, fetches.drop_last());
        let before = model_run(rules, fetches.drop_last());
        if let FetchedView::Page(items) = fetches.last() {
            lemma_pulled_grows(rules, before.urls, items);
        }
    }
}

/// Once a harvest is done or aborted, further fetches change nothing.
pub proof fn lemma_done_stays(rules: Rules, fetches: Seq<FetchedView>, n: int)
    requires
        0 <= n <= fetches.len(),
        next_of(model_run(rules, fetches.take(n)).phase) != Next::Fetch,
    ensures
        model_run(rules, fetches) == model_run(rules, fetches.take(n)),
    decreases fetches.len(),
{
    if n == fetches.len() {
        assert(fetches.take(n) =~= fetches);
    } else {
        assert(fetches.drop_last().take(n) =~= fetches.take(n));
        lemma_done_stays(rules, fetches.drop_last(), n);
    }
}

/// After one page or more, the harvest holds the first-seen URLs of all items
/// so far, as many as the limit lets in, and goes on exactly while there is
/// room.
pub proof fn lemma_harvest_of_pages(rules: Rules, pages: Seq<PageView>)
    requires
        pages.len() >= 1,
    ensures
        model_run(rules, page_fetches(pages)).urls == capped(
            rules,
            first_seen(rules, all_items(pages)),
        ),
        model_run(rules, page_fetches(pages)).phase == if first_seen(
            rules,
            all_items(pages),
        ).len() >= rules.limit {
            Phase::Done
        } else {
            Phase::Paging
        },
    decreases pages.len(),
{
    let empty = Seq::<Seq<char>>::empty();
    let fetches = page_fetches(pages);
    let front = pages.drop_last();
    assert(fetches.drop_last() =~= page_fetches(front));
    assert(fetches.last() == FetchedView::Page(pages.last()));
    lemma_pulled_is_capped_first_seen(rules, all_items(pages));
    lemma_pulled_in_turn(rules, empty, all_items(front), pages.last());
    if pages.len() == 1 {
        assert(all_items(front) =~= Seq::<Option<Seq<char>>>::empty());
    } else {
        lemma_harvest_of_pages(rules, front);
        lemma_pulled_is_capped_first_seen(rules, all_items(front));
        let before = model_run(rules, page_fetches(front));
        if before.phase == Phase::Done {
            lemma_full_takes_nothing(rules, before.urls, pages.last());
        }
    }
}

/// Limit enforcement. Where the pages up to page `k` hold as many first-seen
/// URLs as the limit asks for, the harvest is done after page `k`: no further
/// page is asked for, and any that came would change nothing. It then holds
/// exactly as many URLs as the limit says, and they are the first of the
/// first-seen URLs, in their order.
pub proof fn lemma_limit_enforced(rules: Rules, pages: Seq<PageView>, k: int)
    requires
        0 <= k < pages.len(),
        first_seen(rules, all_items(pages.take(k + 1))).len() >= rules.limit,
    ensures
        next_of(model_run(rules, page_fetches(pages.take(k + 1))).phase) == Next::Finish,
        model_run(rules, page_fetches(pages)) == model_run(rules, page_fetches(pages.take(k + 1))),
        model_run(rules, page_fetches(pages)).urls.len() == rules.limit,
        model_run(rules, page_fetches(pages)).urls == first_seen(rules, all_items(pages)).take(
            rules.limit as int,
        ),
{
    lemma_harvest_of_pages(rules, pages.take(k + 1));
    lemma_harvest_of_pages(rules, pages);
    assert(page_fetches(pages).take(k + 1) =~= page_fetches(pages.take(k + 1)));
    lemma_done_stays(rules, page_fetches(pages), k + 1);
}

/// Deduplication. However often a URL comes, within a page or across pages,
/// the harvest holds it once at most, and the URLs it holds stand as they
/// were first seen: the harvest is the beginning of the first-seen URLs of
/// all items.
pub proof fn lemma_each_url_once(rules: Rules, pages: Seq<PageView>)
    requires
        pages.len() >= 1,
    ensures
        model_run(rules, page_fetches(pages)).urls.no_duplicates(),
        model_run(rules, page_fetches(pages)).urls.is_prefix_of(
            first_seen(rules, all_items(pages)),
        ),
{
    lemma_harvest_of_pages(rules, pages);
    lemma_run_keeps_limit(rules, page_fetches(pages));
}

/// Partial results. Where a fetch fails after one page or more, and the
/// pages so far hold fewer first-seen URLs than the limit asks for, the
/// harvest is done, not aborted, and holds all of them.
pub proof fn lemma_failed_fetch_keeps_result(rules: Rules, pages: Seq<PageView>)
    requires
        pages.len() >= 1,
        first_seen(rules, all_items(pages)).len() < rules.limit,
    ensures
        model_run(rules, page_fetches(pages).push(FetchedView::Failed)) == (HarvestModel {
            phase: Phase::Done,
            urls: first_seen(rules, all_items(pages)),
        }),
{
    lemma_harvest_of_pages(rules, pages);
    assert(page_fetches(pages).push(FetchedView::Failed).drop_last() =~= page_fetches(pages));
}

/// A first fetch that fails aborts the harvest: there is no result, and
/// nothing that comes later changes that.
pub proof fn lemma_first_failure_aborts(rules: Rules, later: Seq<FetchedView>)
    ensures
        model_run(rules, seq![FetchedView::Failed] + later).phase == Phase::Aborted,
        next_of(model_run(rules, seq![FetchedView::Failed] + later).phase) == Next::Abort,
{
    let fetches = seq![FetchedView::Failed] + later;
    let first = fetches.take(1);
    assert(first.drop_last() =~= Seq::<FetchedView>::empty());
    assert(first.last() == FetchedView::Failed);
    assert(model_run(rules, first.drop_last()) == model_start());
    assert(model_run(rules, first).phase == Phase::Aborted);
    lemma_done_stays(rules, fetches, 1);
}

/// Exhaustion. Where the pages end and hold fewer first-seen URLs than the
/// limit asks for, the harvest is done and holds all of them.
pub proof fn lemma_exhausted_pages_keep_result(rules: Rules, pages: Seq<PageView>)
    requires
        pages.len() >= 1,
        first_seen(rules, all_items(pages)).len() < rules.limit,
    ensures
        model_run(rules, page_fetches(pages).push(FetchedView::NoMorePages)) == (HarvestModel {
            phase: Phase::Done,
            urls: first_seen(rules, all_items(pages)),
        }),
{
    lemma_harvest_of_pages(rules, pages);
    assert(page_fetches(pages).push(FetchedView::NoMorePages).drop_last() =~= page_fetches(
        pages,
    ));
}

/// A harvest in progress. The driver makes the fetches and hands in what
/// came of each; the harvest keeps the result set and says what to do next.
pub struct Harvester {
    options: Options,
    present: Vec<String>,
    urls: UrlSet,
    phase: Phase,
}

impl Harvester {
    /// The rules that this harvest goes by.
    pub closed spec fn rules(&self) -> Rules {
        rules_of(self.options, self.present.deep_view())
    }

    /// The language and licenses that this harvest searches for.
    pub closed spec fn searched(&self) -> (Seq<char>, Seq<Seq<char>>) {
        (self.options.language@, self.options.license.deep_view())
    }

    /// Where this harvest stands and what it holds.
    pub closed spec fn model(&self) -> HarvestModel {
        HarvestModel { phase: self.phase, urls: self.urls@ }
    }

    /// A harvest for `options`, with `present` the names of the directories
    /// that stand in the output directory. Nothing has come back yet.
    pub fn new(options: Options, present: Vec<String>) -> (harvester: Harvester)
        ensures
            harvester.rules() == rules_of(options, present.deep_view()),
            harvester.searched() == (options.language@, options.license.deep_view()),
            harvester.model() == model_start(),
    {
        Harvester { options, present, urls: UrlSet::new(), phase: Phase::First }
    }

    /// The request that brings the first page.
    pub fn first_request(&self) -> (request: SearchRequest)
        ensures
            request.query@ == query_text(self.searched().0, self.searched().1),
            request.sort@ == "stars"@,
            request.order@ == "desc"@,
    {
        first_request(self.options.language.as_str(), &self.options.license)
    }

    /// What the driver is to do next.
    pub fn next(&self) -> (next: Next)
        ensures
            next == next_of(self.model().phase),
    {
        match self.phase {
            Phase::First | Phase::Paging => Next::Fetch,
            Phase::Done => Next::Finish,
            Phase::Aborted => Next::Abort,
        }
    }

    /// Takes in what came of a fetch, and says what to do next.
    pub fn step(&mut self, fetched: Fetched) -> (next: Next)
        requires
            old(self).rules().skip_present ==> (fetched matches Fetched::Page(page) ==> nameable(
                page@,
            )),
        ensures
            final(self).rules() == old(self).rules(),
            final(self).searched() == old(self).searched(),
            final(self).model() == model_step(old(self).rules(), old(self).model(), fetched@),
            next == next_of(final(self).model().phase),
    {
        match self.phase {
            Phase::Done | Phase::Aborted => {},
            _ => match fetched {
                Fetched::Page(page) => {
                    let done = pull_items(&page, &mut self.urls, &self.options, &self.present);
                    if done {
                        self.phase = Phase::Done;
                    } else {
                        self.phase = Phase::Paging;
                    }
                },
                Fetched::NoMorePages => {
                    self.phase = Phase::Done;
                },
                Fetched::Failed => {
                    if self.phase == Phase::First {
                        self.phase = Phase::Aborted;
                    } else {
                        self.phase = Phase::Done;
                    }
                },
            },
        }
        self.next()
    }

    /// The result set as it stands.
    pub fn urls(&self) -> (urls: &UrlSet)
        ensures
            urls@ == self.model().urls,
    {
        &self.urls
    }

    /// The result set, given over.
    pub fn into_urls(self) -> (urls: UrlSet)
        ensures
            urls@ == self.model().urls,
    {
        self.urls
    }
}

} // verus!
