//! The bookkeeping of the views over the catalogue: the search view (the
//! categories it offers, the addons of the category chosen, their order),
//! the category browser and the author view, and what each asks the
//! service to load.

use std::collections::HashMap;
use vstd::prelude::*;
use vstd::string::*;
use vstd::utf8::*;
use crate::promise::{
    after_handle, after_poll, after_set, idle_state, polling, ready, PollState, PromiseState,
    PromisedValue,
};
use crate::service::{copy_show_details, AddonShowDetails, CategoryResult, ParentCategory};
use crate::text::{trim, trim_spec};
use crate::cli::{int_text, int_to_string};
use crate::views::{
    filter_positions, is_listing, is_listing_by, lowercase, matched_positions, sort_addons, sort_by_keys,
    to_lowercase, Keys, Sort,
};

verus! {

/// What the search view asks the service for.
pub enum SearchRequest {
    LoadCategories,
    /// The addons of this category.
    LoadCategory(i32),
    /// Addons whose name matches this text.
    Search(String),
}

/// The direction the search view lists a column in: texts, dates and ids
/// upwards, counts downwards.
pub open spec fn search_ascending(sort: Sort) -> bool {
    match sort {
        Sort::Name | Sort::Author | Sort::Updated | Sort::Id => true,
        _ => false,
    }
}

/// The text searched for: trimmed, then lower-cased.
pub open spec fn search_term(s: Seq<char>) -> Seq<char> {
    lowercase(decode_utf8(trim_spec(encode_utf8(s))))
}

pub open spec fn category_model(c: CategoryResult) -> (i32, Seq<char>) {
    (c.id, c.title@)
}

/// The search view.
pub struct Search {
    pub results: PromisedValue<Vec<AddonShowDetails>>,
    pub search: String,
    pub is_init: bool,
    pub get_categories: PromisedValue<Vec<CategoryResult>>,
    pub categories: HashMap<i32, CategoryResult>,
    pub category_addons: PromisedValue<Vec<AddonShowDetails>>,
    pub displayed_addons: Vec<AddonShowDetails>,
    pub selected_category: i32,
    pub previous_category: i32,
    pub sort: Sort,
    pub prev_sort: Sort,
}

/// The categories by id, as the loaded list gives them (a later entry for
/// an id wins).
pub open spec fn categories_by_id(cs: Seq<CategoryResult>) -> Map<i32, (i32, Seq<char>)>
    decreases cs.len(),
{
    if cs.len() == 0 {
        Map::empty()
    } else {
        categories_by_id(cs.drop_last()).insert(cs.last().id, category_model(cs.last()))
    }
}

pub open spec fn categories_view(m: Map<i32, CategoryResult>) -> Map<i32, (i32, Seq<char>)> {
    m.map_values(|c: CategoryResult| category_model(c))
}

fn copy_category(c: &CategoryResult) -> (r: CategoryResult)
    ensures
        r == *c,
{
    CategoryResult { id: c.id, title: c.title.clone(), file_count: c.file_count }
}

impl Search {
    /// A search view listing by total downloads, not yet loaded.
    pub fn new() -> (s: Search)
        ensures
            s.sort == Sort::TotalDownloads,
            s.prev_sort == Sort::Id,
            !s.is_init,
            s.selected_category == 0,
            s.previous_category == 0,
            s.search@.len() == 0,
            s.results@ == idle_state::<Vec<AddonShowDetails>>(),
            s.get_categories@ == idle_state::<Vec<CategoryResult>>(),
            s.category_addons@ == idle_state::<Vec<AddonShowDetails>>(),
            s.displayed_addons@.len() == 0,
            s.categories@ == Map::<i32, CategoryResult>::empty(),
    {
        Search {
            results: PromisedValue::new(),
            search: String::new(),
            is_init: false,
            get_categories: PromisedValue::new(),
            categories: HashMap::new(),
            category_addons: PromisedValue::new(),
            displayed_addons: Vec::new(),
            selected_category: 0,
            previous_category: 0,
            sort: Sort::TotalDownloads,
            prev_sort: Sort::Id,
        }
    }

    /// Loads the addons of the chosen category.
    fn get_addons(&mut self, reqs: &mut Vec<SearchRequest>)
        ensures
            final(self).category_addons@ == after_set(old(self).category_addons@),
            final(reqs)@ == old(reqs)@.push(SearchRequest::LoadCategory(old(self).selected_category)),
            *final(self) == (Search { category_addons: final(self).category_addons, ..*old(self) }),
    {
        self.category_addons.set();
        reqs.push(SearchRequest::LoadCategory(self.selected_category));
    }

    /// The first time the view is shown it loads the categories and the
    /// addons of the first one.
    pub fn handle_init(&mut self) -> (reqs: Vec<SearchRequest>)
        ensures
            old(self).is_init ==> *final(self) == *old(self) && reqs@.len() == 0,
            !old(self).is_init ==> {
                &&& final(self).is_init
                &&& final(self).get_categories@ == after_set(old(self).get_categories@)
                &&& final(self).category_addons@ == after_set(old(self).category_addons@)
                &&& final(self).selected_category == 0
                &&& final(self).previous_category == 0
                &&& reqs@ == seq![SearchRequest::LoadCategories, SearchRequest::LoadCategory(0)]
            },
    {
        let mut reqs: Vec<SearchRequest> = Vec::new();
        if !self.is_init {
            self.get_categories.set();
            reqs.push(SearchRequest::LoadCategories);
            self.is_init = true;
            self.selected_category = 0;
            self.previous_category = 0;
            self.get_addons(&mut reqs);
            proof {
                assert(reqs@ =~= seq![SearchRequest::LoadCategories, SearchRequest::LoadCategory(0)]);
            }
        }
        reqs
    }

    /// Lists the loaded addons of the category in the view's order.
    pub fn sort_addons(&mut self)
        ensures
            old(self).category_addons@.value is None ==> exists|perm: Seq<int>| is_listing_by(
                old(self).displayed_addons@,
                final(self).displayed_addons@,
                perm,
                old(self).sort,
                search_ascending(old(self).sort),
                Keys::Search,
            ),
            old(self).category_addons@.value matches Some(v) ==> exists|perm: Seq<int>| is_listing_by(
                v@,
                final(self).displayed_addons@,
                perm,
                old(self).sort,
                search_ascending(old(self).sort),
                Keys::Search,
            ),
            *final(self) == (Search { displayed_addons: final(self).displayed_addons, ..*old(self) }),
    {
        match self.category_addons.get() {
            Some(v) => {
                let mut copy: Vec<AddonShowDetails> = Vec::new();
                let mut k: usize = 0;
                while k < v.len()
                    invariant
                        k <= v@.len(),
                        copy@ == v@.take(k as int),
                    decreases v.len() - k,
                {
                    copy.push(copy_show_details(&v[k]));
                    proof {
                        assert(copy@ =~= v@.take(k + 1));
                    }
                    k += 1;
                }
                proof {
                    assert(v@.take(k as int) =~= v@);
                }
                self.displayed_addons = copy;
            },
            None => {},
        }
        let asc = match self.sort {
            Sort::Name | Sort::Author | Sort::Updated | Sort::Id => true,
            _ => false,
        };
        assert(asc == search_ascending(self.sort));
        let ghost before = self.displayed_addons@;
        sort_by_keys(&mut self.displayed_addons, self.sort, asc, Keys::Search);
        proof {
            let perm = choose|perm: Seq<int>| is_listing_by(before, self.displayed_addons@, perm, self.sort, asc, Keys::Search);
            assert(is_listing_by(before, self.displayed_addons@, perm, old(self).sort, search_ascending(old(self).sort), Keys::Search));
        }
    }

    /// Takes in the states of the view's tasks: loaded categories are
    /// indexed by id, loaded addons are listed in order, search results are
    /// taken.
    pub fn poll(
        &mut self,
        categories: PollState<Vec<CategoryResult>>,
        addons: PollState<Vec<AddonShowDetails>>,
        results: PollState<Vec<AddonShowDetails>>,
    )
        ensures
            ({
                let c = after_poll(old(self).get_categories@, categories);
                let a = after_poll(old(self).category_addons@, addons);
                let r = after_poll(old(self).results@, results);
                &&& final(self).get_categories@ == (if ready(c) { after_handle(c) } else { c })
                &&& ready(c) ==> (c.value matches Some(cs) && categories_view(final(self).categories@) == categories_by_id(cs@))
                &&& !ready(c) ==> final(self).categories@ == old(self).categories@
                &&& final(self).category_addons@ == (if ready(a) { after_handle(a) } else { a })
                &&& ready(a) ==> (a.value matches Some(v) && exists|perm: Seq<int>| is_listing_by(
                    v@,
                    final(self).displayed_addons@,
                    perm,
                    old(self).sort,
                    search_ascending(old(self).sort),
                    Keys::Search,
                ))
                &&& !ready(a) ==> final(self).displayed_addons@ == old(self).displayed_addons@
                &&& final(self).results@ == (if ready(r) { after_handle(r) } else { r })
            }),
            final(self).sort == old(self).sort,
            final(self).prev_sort == old(self).prev_sort,
            final(self).selected_category == old(self).selected_category,
            final(self).previous_category == old(self).previous_category,
            final(self).is_init == old(self).is_init,
            final(self).search@ == old(self).search@,
    {
        broadcast use vstd::std_specs::hash::group_hash_axioms;
        self.get_categories.poll(categories);
        if self.get_categories.is_ready() {
            self.get_categories.handle();
            let mut map: HashMap<i32, CategoryResult> = HashMap::new();
            match self.get_categories.get() {
                Some(cs) => {
                    let mut k: usize = 0;
                    proof {
                        assert(cs@.take(0) =~= Seq::<CategoryResult>::empty());
                        assert(categories_view(map@) =~= categories_by_id(cs@.take(0)));
                    }
                    while k < cs.len()
                        invariant
                            k <= cs@.len(),
                            categories_view(map@) == categories_by_id(cs@.take(k as int)),
                        decreases cs.len() - k,
                    {
                        let c = copy_category(&cs[k]);
                        proof {
                            assert(cs@.take(k + 1).drop_last() =~= cs@.take(k as int));
                        }
                        let ghost before = map@;
                        map.insert(cs[k].id, c);
                        proof {
                            assert(categories_view(map@) =~= categories_view(before).insert(cs@[k as int].id, category_model(cs@[k as int])));
                        }
                        k += 1;
                    }
                    proof {
                        assert(cs@.take(k as int) =~= cs@);
                    }
                },
                None => {},
            }
            self.categories = map;
        }
        self.category_addons.poll(addons);
        let ghost sort_at = self.sort;
        if self.category_addons.is_ready() {
            self.category_addons.handle();
            let ghost loaded = self.category_addons@.value;
            self.sort_addons();
            proof {
                let v = loaded->0;
                let perm = choose|perm: Seq<int>| is_listing_by(v@, self.displayed_addons@, perm, sort_at, search_ascending(sort_at), Keys::Search);
                assert(is_listing_by(v@, self.displayed_addons@, perm, sort_at, search_ascending(sort_at), Keys::Search));
            }
        }
        let ghost shown = self.displayed_addons@;
        self.results.poll(results);
        if self.results.is_ready() {
            self.results.handle();
        }
        proof {
            let a = after_poll(old(self).category_addons@, addons);
            assert(self.displayed_addons@ == shown);
            if ready(a) {
                let v = a.value->0;
                let perm = choose|perm: Seq<int>| is_listing_by(v@, shown, perm, sort_at, search_ascending(sort_at), Keys::Search);
                assert(is_listing_by(v@, self.displayed_addons@, perm, old(self).sort, search_ascending(old(self).sort), Keys::Search));
            }
        }
    }

    /// Re-lists the addons when the column changed.
    pub fn handle_sort(&mut self)
        ensures
            old(self).prev_sort == old(self).sort ==> *final(self) == *old(self),
            old(self).prev_sort != old(self).sort ==> {
                &&& final(self).prev_sort == old(self).sort
                &&& final(self).sort == old(self).sort
                &&& old(self).category_addons@.value matches Some(v) ==> exists|perm: Seq<int>| is_listing_by(
                    v@,
                    final(self).displayed_addons@,
                    perm,
                    old(self).sort,
                    search_ascending(old(self).sort),
                    Keys::Search,
                )
            },
    {
        if self.prev_sort != self.sort {
            self.prev_sort = self.sort;
            self.sort_addons();
        }
    }

    /// When another category was chosen, its addons are loaded.
    pub fn category_changed(&mut self) -> (reqs: Vec<SearchRequest>)
        ensures
            old(self).selected_category == old(self).previous_category ==> *final(self) == *old(self) && reqs@.len()
                == 0,
            old(self).selected_category != old(self).previous_category ==> {
                &&& final(self).category_addons@ == after_set(old(self).category_addons@)
                &&& final(self).previous_category == old(self).selected_category
                &&& reqs@ == seq![SearchRequest::LoadCategory(old(self).selected_category)]
            },
    {
        let mut reqs: Vec<SearchRequest> = Vec::new();
        if self.selected_category != self.previous_category {
            self.get_addons(&mut reqs);
            self.previous_category = self.selected_category;
        }
        reqs
    }

    /// After the installed addons changed, the category is loaded again.
    pub fn reset(&mut self) -> (reqs: Vec<SearchRequest>)
        ensures
            !old(self).is_init ==> *final(self) == *old(self) && reqs@.len() == 0,
            old(self).is_init ==> final(self).category_addons@ == after_set(old(self).category_addons@) && reqs@
                == seq![SearchRequest::LoadCategory(old(self).selected_category)],
    {
        let mut reqs: Vec<SearchRequest> = Vec::new();
        if self.is_init {
            self.get_addons(&mut reqs);
        }
        reqs
    }

    /// Searches for the text typed, trimmed and lower-cased, unless it is
    /// blank or a search runs.
    pub fn handle_search(&mut self) -> (reqs: Vec<SearchRequest>)
        ensures
            search_term(old(self).search@).len() == 0 || polling(old(self).results@) ==> *final(self) == *old(self)
                && reqs@.len() == 0,
            !(search_term(old(self).search@).len() == 0 || polling(old(self).results@)) ==> {
                &&& final(self).results@ == after_set(old(self).results@)
                &&& reqs@.len() == 1
                &&& reqs@[0] matches SearchRequest::Search(t) && t@ == search_term(old(self).search@)
            },
    {
        let t = trim(self.search.as_str());
        proof {
            encode_utf8_decode_utf8(t@);
        }
        let term = to_lowercase(t);
        let mut reqs: Vec<SearchRequest> = Vec::new();
        if term.as_str().is_empty() || self.results.is_polling() {
            return reqs;
        }
        self.results.set();
        reqs.push(SearchRequest::Search(term));
        reqs
    }

    /// Clears the search text and the results shown.
    pub fn clear_search(&mut self)
        ensures
            final(self).search@.len() == 0,
            old(self).results@.value is Some ==> {
                &&& final(self).results@.value matches Some(v) && v@.len() == 0
                &&& final(self).results@ == (PromiseState { value: final(self).results@.value, ..old(self).results@ })
            },
            old(self).results@.value is None ==> final(self).results@ == old(self).results@,
    {
        self.search = String::new();
        if self.results.get().is_some() {
            self.results.set_value(Vec::new());
        }
    }

    /// The positions of the listed addons whose name contains the search
    /// text, ignoring case.
    pub fn visible(&self) -> (r: Vec<usize>)
        ensures
            r@ == matched_positions(self.displayed_addons@, self.search@, None, self.displayed_addons@.len() as int),
    {
        filter_positions(&self.displayed_addons, self.search.as_str())
    }

    /// The title of a category the view knows.
    pub fn category_title(&self, id: i32) -> (r: String)
        requires
            self.categories@.contains_key(id),
        ensures
            r@ == self.categories@[id].title@,
    {
        broadcast use vstd::std_specs::hash::group_hash_axioms;
        match self.categories.get(&id) {
            Some(c) => c.title.clone(),
            None => String::new(),
        }
    }
}

/// What the category browser asks the service for.
pub enum BrowseRequest {
    LoadParents,
    /// The addons of this category.
    LoadCategory(i32),
}

/// The category browser.
pub struct Browse {
    pub is_init: bool,
    pub parent_categories: PromisedValue<Vec<ParentCategory>>,
    pub displayed_addons: PromisedValue<Vec<AddonShowDetails>>,
    pub selected_category: i32,
    pub previous_category: i32,
}

impl Browse {
    pub fn new() -> (b: Browse)
        ensures
            !b.is_init,
            b.parent_categories@ == idle_state::<Vec<ParentCategory>>(),
            b.displayed_addons@ == idle_state::<Vec<AddonShowDetails>>(),
            b.selected_category == 0,
            b.previous_category == 0,
    {
        Browse {
            is_init: false,
            parent_categories: PromisedValue::new(),
            displayed_addons: PromisedValue::new(),
            selected_category: 0,
            previous_category: 0,
        }
    }

    /// The first time the browser is shown it loads the category tree and
    /// the addons of the first category.
    pub fn handle_init(&mut self) -> (reqs: Vec<BrowseRequest>)
        ensures
            old(self).is_init ==> *final(self) == *old(self) && reqs@.len() == 0,
            !old(self).is_init ==> {
                &&& final(self).is_init
                &&& final(self).parent_categories@ == after_set(old(self).parent_categories@)
                &&& final(self).displayed_addons@ == after_set(old(self).displayed_addons@)
                &&& final(self).selected_category == 0
                &&& final(self).previous_category == 0
                &&& reqs@ == seq![BrowseRequest::LoadParents, BrowseRequest::LoadCategory(0)]
            },
    {
        let mut reqs: Vec<BrowseRequest> = Vec::new();
        if !self.is_init {
            self.parent_categories.set();
            reqs.push(BrowseRequest::LoadParents);
            self.is_init = true;
            self.selected_category = 0;
            self.previous_category = 0;
            self.displayed_addons.set();
            reqs.push(BrowseRequest::LoadCategory(0));
            proof {
                assert(reqs@ =~= seq![BrowseRequest::LoadParents, BrowseRequest::LoadCategory(0)]);
            }
        }
        reqs
    }

    /// Takes in the loaded category tree and addons.
    pub fn poll(&mut self, parents: PollState<Vec<ParentCategory>>, addons: PollState<Vec<AddonShowDetails>>)
        ensures
            ({
                let p = after_poll(old(self).parent_categories@, parents);
                let a = after_poll(old(self).displayed_addons@, addons);
                &&& final(self).parent_categories@ == (if ready(p) { after_handle(p) } else { p })
                &&& final(self).displayed_addons@ == (if ready(a) { after_handle(a) } else { a })
            }),
            final(self).is_init == old(self).is_init,
            final(self).selected_category == old(self).selected_category,
            final(self).previous_category == old(self).previous_category,
    {
        self.parent_categories.poll(parents);
        if self.parent_categories.is_ready() {
            self.parent_categories.handle();
        }
        self.displayed_addons.poll(addons);
        if self.displayed_addons.is_ready() {
            self.displayed_addons.handle();
        }
    }

    /// When another category was chosen, its addons are loaded.
    pub fn category_changed(&mut self) -> (reqs: Vec<BrowseRequest>)
        ensures
            old(self).selected_category == old(self).previous_category ==> *final(self) == *old(self) && reqs@.len()
                == 0,
            old(self).selected_category != old(self).previous_category ==> {
                &&& final(self).displayed_addons@ == after_set(old(self).displayed_addons@)
                &&& final(self).previous_category == old(self).selected_category
                &&& final(self).selected_category == old(self).selected_category
                &&& reqs@ == seq![BrowseRequest::LoadCategory(old(self).selected_category)]
            },
    {
        let mut reqs: Vec<BrowseRequest> = Vec::new();
        if self.selected_category != self.previous_category {
            self.displayed_addons.set();
            reqs.push(BrowseRequest::LoadCategory(self.selected_category));
            self.previous_category = self.selected_category;
        }
        reqs
    }
}

/// A category as the browser lists it: its title and how many files it
/// holds (0 when unknown).
pub open spec fn category_label_spec(c: CategoryResult) -> Seq<char> {
    c.title@ + " ("@ + int_text(match c.file_count {
        Some(n) => n as int,
        None => 0,
    }) + ")"@
}

pub fn category_label(c: &CategoryResult) -> (r: String)
    ensures
        r@ == category_label_spec(*c),
{
    let n = match c.file_count {
        Some(n) => n,
        None => 0,
    };
    let digits = int_to_string(n);
    let mut out = c.title.clone();
    crate::text::push_str(&mut out, " (");
    crate::text::push_str(&mut out, digits.as_str());
    crate::text::push_str(&mut out, ")");
    proof {
        assert(out@ =~= category_label_spec(*c));
    }
    out
}

/// The view of one author's addons.
pub struct Author {
    pub author_name: String,
    pub addons: PromisedValue<Vec<AddonShowDetails>>,
    pub displayed_addons: Vec<AddonShowDetails>,
    pub sort: Sort,
    pub prev_sort: Sort,
    pub ascending: bool,
    pub prev_ascending: bool,
}

impl Author {
    /// What the view lists: the loaded addons, or, before any loaded, what
    /// it shows.
    pub open spec fn source(&self) -> Seq<AddonShowDetails> {
        match self.addons@.value {
            Some(v) => v@,
            None => self.displayed_addons@,
        }
    }

    /// No author yet; listed by name, upwards.
    pub fn new() -> (a: Author)
        ensures
            a.author_name@.len() == 0,
            a.addons@ == idle_state::<Vec<AddonShowDetails>>(),
            a.displayed_addons@.len() == 0,
            a.sort == Sort::Name,
            a.prev_sort == Sort::Id,
            a.ascending,
            a.prev_ascending,
    {
        Author {
            author_name: String::new(),
            addons: PromisedValue::new(),
            displayed_addons: Vec::new(),
            sort: Sort::Name,
            prev_sort: Sort::Id,
            ascending: Sort::Name.default_ascending(),
            prev_ascending: Sort::Name.default_ascending(),
        }
    }

    /// Shows another author: their addons are loaded (the caller starts
    /// the task for the name).
    pub fn author_name(&mut self, name: String)
        ensures
            final(self).author_name == name,
            final(self).addons@ == after_set(old(self).addons@),
            *final(self) == (Author { author_name: name, addons: final(self).addons, ..*old(self) }),
    {
        self.author_name = name;
        self.addons.set();
    }

    /// Lists the loaded addons in the view's order.
    fn sort_addons(&mut self)
        ensures
            old(self).addons@.value matches Some(v) ==> exists|perm: Seq<int>| is_listing(
                v@,
                final(self).displayed_addons@,
                perm,
                old(self).sort,
                old(self).ascending,
            ),
            old(self).addons@.value is None ==> exists|perm: Seq<int>| is_listing(
                old(self).displayed_addons@,
                final(self).displayed_addons@,
                perm,
                old(self).sort,
                old(self).ascending,
            ),
            *final(self) == (Author { displayed_addons: final(self).displayed_addons, ..*old(self) }),
    {
        match self.addons.get() {
            Some(v) => {
                let mut copy: Vec<AddonShowDetails> = Vec::new();
                let mut k: usize = 0;
                while k < v.len()
                    invariant
                        k <= v@.len(),
                        copy@ == v@.take(k as int),
                    decreases v.len() - k,
                {
                    copy.push(copy_show_details(&v[k]));
                    proof {
                        assert(copy@ =~= v@.take(k + 1));
                    }
                    k += 1;
                }
                proof {
                    assert(v@.take(k as int) =~= v@);
                }
                self.displayed_addons = copy;
            },
            None => {},
        }
        sort_addons(&mut self.displayed_addons, self.sort, self.ascending);
    }

    /// Takes in the state of the loading task; a loaded list is shown in
    /// order. Hands back the error to record, if the task failed.
    pub fn poll(&mut self, state: PollState<Vec<AddonShowDetails>>) -> (err: Option<(String, String)>)
        ensures
            ({
                let a = PromiseState { error: None, ..after_poll(old(self).addons@, state) };
                &&& final(self).addons@ == (if ready(a) { after_handle(a) } else { a })
                &&& ready(a) ==> (a.value matches Some(v) && exists|perm: Seq<int>| is_listing(
                    v@,
                    final(self).displayed_addons@,
                    perm,
                    old(self).sort,
                    old(self).ascending,
                ))
                &&& !ready(a) ==> final(self).displayed_addons@ == old(self).displayed_addons@
                &&& match after_poll(old(self).addons@, state).error {
                    Some(e) => err matches Some(rec) && rec.0@ == "Loading author addons"@ && rec.1@ == e,
                    None => err is None,
                }
            }),
            final(self).sort == old(self).sort,
            final(self).ascending == old(self).ascending,
            final(self).prev_sort == old(self).prev_sort,
            final(self).prev_ascending == old(self).prev_ascending,
            final(self).author_name == old(self).author_name,
    {
        let err = self.addons.poll_recording(state, "Loading author addons");
        if self.addons.is_ready() {
            self.addons.handle();
            let ghost loaded = self.addons@.value;
            self.sort_addons();
            proof {
                let v = loaded->0;
                let perm = choose|perm: Seq<int>| is_listing(v@, self.displayed_addons@, perm, self.sort, self.ascending);
                assert(is_listing(v@, self.displayed_addons@, perm, old(self).sort, old(self).ascending));
            }
        }
        err
    }

    /// Re-lists when the column or direction changed; a newly chosen
    /// column starts in its default direction.
    pub fn handle_sort(&mut self)
        ensures
            final(self).sort == old(self).sort,
            final(self).ascending == (if old(self).prev_sort != old(self).sort {
                old(self).sort == Sort::Name || old(self).sort == Sort::Author || old(self).sort == Sort::Id
            } else {
                old(self).ascending
            }),
            old(self).prev_sort == old(self).sort && old(self).prev_ascending == old(self).ascending ==> *final(self)
                == *old(self),
            !(old(self).prev_sort == old(self).sort && old(self).prev_ascending == old(self).ascending) ==> {
                &&& final(self).prev_sort == final(self).sort
                &&& final(self).prev_ascending == final(self).ascending
                &&& exists|perm: Seq<int>| is_listing(
                    old(self).source(),
                    final(self).displayed_addons@,
                    perm,
                    final(self).sort,
                    final(self).ascending,
                )
            },
    {
        if self.prev_sort != self.sort {
            self.ascending = self.sort.default_ascending();
        } else if self.prev_ascending == self.ascending {
            return;
        }
        self.prev_sort = self.sort;
        self.prev_ascending = self.ascending;
        let ghost source = self.source();
        let ghost pre = *self;
        self.sort_addons();
        proof {
            match pre.addons@.value {
                Some(v) => {
                    assert(source == v@);
                    assert(exists|perm: Seq<int>| is_listing(v@, self.displayed_addons@, perm, pre.sort, pre.ascending));
                },
                None => {
                    assert(source == pre.displayed_addons@);
                },
            }
            assert(source == old(self).source());
            let perm = choose|perm: Seq<int>| is_listing(source, self.displayed_addons@, perm, pre.sort, pre.ascending);
            assert(is_listing(old(self).source(), self.displayed_addons@, perm, self.sort, self.ascending));
        }
    }

    /// After the installed addons changed, the author's addons are loaded
    /// again, when an author is shown.
    pub fn reset(&mut self) -> (started: bool)
        ensures
            started == (old(self).author_name@.len() > 0),
            started ==> final(self).addons@ == after_set(old(self).addons@),
            !started ==> *final(self) == *old(self),
    {
        if self.author_name.as_str().is_empty() {
            return false;
        }
        self.addons.set();
        true
    }
}

} // verus!
