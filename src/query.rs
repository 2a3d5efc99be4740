use vstd::prelude::*;
use vstd::string::*;
use crate::category::Category;
use crate::digits::{decimal, push_decimal};
use crate::model::text_is;

verus! {

/// Which way results are ordered.
#[derive(Debug, Clone, Copy, Hash, PartialEq, Eq, Structural)]
pub enum SortOrder {
    Ascending,
    Descending,
}

impl SortOrder {
    pub open spec fn token(self) -> Seq<char> {
        match self {
            SortOrder::Ascending => "asc"@,
            SortOrder::Descending => "desc"@,
        }
    }

    /// Reads "asc" or "desc".
    pub fn from_str(s: &str) -> (r: Result<SortOrder, String>)
        ensures
            s@ == "asc"@ ==> r == Ok::<SortOrder, String>(SortOrder::Ascending),
            s@ == "desc"@ ==> r == Ok::<SortOrder, String>(SortOrder::Descending),
            s@ != "asc"@ && s@ != "desc"@ ==> (r matches Err(m) && m@ == "Invalid sort order"@),
    {
        proof {
            reveal_strlit("asc");
            reveal_strlit("desc");
        }
        let n = s.unicode_len();
        assert(s@.subrange(0, n as int) =~= s@);
        if text_is(s, 0, n, "asc") {
            Ok(SortOrder::Ascending)
        } else if text_is(s, 0, n, "desc") {
            Ok(SortOrder::Descending)
        } else {
            Err(String::from_str("Invalid sort order"))
        }
    }

    /// The wire token: "asc" or "desc".
    pub fn to_string(&self) -> (r: String)
        ensures
            r@ == self.token(),
    {
        match self {
            SortOrder::Ascending => String::from_str("asc"),
            SortOrder::Descending => String::from_str("desc"),
        }
    }
}

impl Default for SortOrder {
    fn default() -> (r: SortOrder)
        ensures
            r == SortOrder::Descending,
    {
        SortOrder::Descending
    }
}

/// The key results are ordered by.
#[derive(Debug, Clone, Copy, Hash, PartialEq, Eq, Structural)]
pub enum Sort {
    Comments,
    Size,
    Date,
    Seeders,
    Leechers,
    Downloads,
}

impl Sort {
    pub open spec fn token(self) -> Seq<char> {
        match self {
            Sort::Comments => "comments"@,
            Sort::Size => "size"@,
            Sort::Date => "date"@,
            Sort::Seeders => "seeders"@,
            Sort::Leechers => "leechers"@,
            Sort::Downloads => "downloads"@,
        }
    }

    /// The sort whose token is `s`, if any.
    pub open spec fn of_token(s: Seq<char>) -> Option<Sort> {
        if s == "comments"@ {
            Some(Sort::Comments)
        } else if s == "size"@ {
            Some(Sort::Size)
        } else if s == "date"@ {
            Some(Sort::Date)
        } else if s == "seeders"@ {
            Some(Sort::Seeders)
        } else if s == "leechers"@ {
            Some(Sort::Leechers)
        } else if s == "downloads"@ {
            Some(Sort::Downloads)
        } else {
            None
        }
    }

    /// Reads a sort token.
    pub fn from_str(s: &str) -> (r: Result<Sort, String>)
        ensures
            match Sort::of_token(s@) {
                Some(v) => r == Ok::<Sort, String>(v),
                None => r matches Err(m) && m@ == "Invalid sort"@,
            },
    {
        proof {
            reveal_strlit("comments");
            reveal_strlit("size");
            reveal_strlit("date");
            reveal_strlit("seeders");
            reveal_strlit("leechers");
            reveal_strlit("downloads");
        }
        let n = s.unicode_len();
        assert(s@.subrange(0, n as int) =~= s@);
        if text_is(s, 0, n, "comments") {
            Ok(Sort::Comments)
        } else if text_is(s, 0, n, "size") {
            Ok(Sort::Size)
        } else if text_is(s, 0, n, "date") {
            Ok(Sort::Date)
        } else if text_is(s, 0, n, "seeders") {
            Ok(Sort::Seeders)
        } else if text_is(s, 0, n, "leechers") {
            Ok(Sort::Leechers)
        } else if text_is(s, 0, n, "downloads") {
            Ok(Sort::Downloads)
        } else {
            Err(String::from_str("Invalid sort"))
        }
    }

    /// The wire token, as in "seeders".
    pub fn to_string(&self) -> (r: String)
        ensures
            r@ == self.token(),
    {
        match self {
            Sort::Comments => String::from_str("comments"),
            Sort::Size => String::from_str("size"),
            Sort::Date => String::from_str("date"),
            Sort::Seeders => String::from_str("seeders"),
            Sort::Leechers => String::from_str("leechers"),
            Sort::Downloads => String::from_str("downloads"),
        }
    }
}

impl Default for Sort {
    fn default() -> (r: Sort)
        ensures
            r == Sort::Seeders,
    {
        Sort::Seeders
    }
}

/// Which uploads are left out of the results.
#[derive(Debug, Clone, Copy, Hash, PartialEq, Eq, Structural)]
pub enum Filter {
    NoFilter,
    NoRemakes,
    TrustedOnly,
}

impl Filter {
    pub open spec fn digit(self) -> u8 {
        match self {
            Filter::NoFilter => 0,
            Filter::NoRemakes => 1,
            Filter::TrustedOnly => 2,
        }
    }

    pub open spec fn of_digit(i: u8) -> Filter {
        if i == 1 {
            Filter::NoRemakes
        } else if i == 2 {
            Filter::TrustedOnly
        } else {
            Filter::NoFilter
        }
    }

    /// The wire code: "0", "1" or "2".
    pub fn to_string(&self) -> (r: String)
        ensures
            r@ == decimal(self.digit() as nat),
    {
        let mut out = String::new();
        let d: u8 = match self {
            Filter::NoFilter => 0,
            Filter::NoRemakes => 1,
            Filter::TrustedOnly => 2,
        };
        push_decimal(&mut out, d as u64);
        assert(out@ =~= decimal(self.digit() as nat));
        out
    }
}

impl Default for Filter {
    fn default() -> (r: Filter)
        ensures
            r == Filter::NoFilter,
    {
        Filter::NoFilter
    }
}

impl From<u8> for Filter {
    /// 1 and 2 are the two filters; any other number is no filter.
    fn from(i: u8) -> (r: Filter) {
        if i == 1 {
            Filter::NoRemakes
        } else if i == 2 {
            Filter::TrustedOnly
        } else {
            Filter::NoFilter
        }
    }
}

impl vstd::std_specs::convert::FromSpecImpl<u8> for Filter {
    open spec fn obeys_from_spec() -> bool {
        true
    }

    open spec fn from_spec(i: u8) -> Filter {
        Filter::of_digit(i)
    }
}

impl From<Filter> for u8 {
    fn from(f: Filter) -> (r: u8) {
        match f {
            Filter::NoFilter => 0,
            Filter::NoRemakes => 1,
            Filter::TrustedOnly => 2,
        }
    }
}

impl vstd::std_specs::convert::FromSpecImpl<Filter> for u8 {
    open spec fn obeys_from_spec() -> bool {
        true
    }

    open spec fn from_spec(f: Filter) -> u8 {
        f.digit()
    }
}


/// A search request, ready to be rendered as a query string.
#[derive(Debug, Clone, PartialEq, Hash)]
pub struct Query<C: Category> {
    pub search: String,
    pub page: u32,
    pub sort: Sort,
    pub sort_order: SortOrder,
    pub filter: Filter,
    pub category: C,
}

/// The query string of a request's fields:
/// "q=<search>&p=<page>&s=<sort>&o=<order>&f=<filter>&c=<category>".
pub open spec fn query_text<C: Category>(
    search: Seq<char>,
    page: u32,
    sort: Sort,
    sort_order: SortOrder,
    filter: Filter,
    category: C,
) -> Seq<char> {
    "q="@ + search + "&p="@ + decimal(page as nat) + "&s="@ + sort.token() + "&o="@
        + sort_order.token() + "&f="@ + decimal(filter.digit() as nat) + "&c="@ + category.code()
}

impl<C: Category> Query<C> {
    pub open spec fn rendered(&self) -> Seq<char> {
        query_text(self.search@, self.page, self.sort, self.sort_order, self.filter, self.category)
    }

    /// The query string, with the search term as it is (no percent-encoding).
    pub fn to_string(&self) -> (r: String)
        ensures
            r@ == self.rendered(),
    {
        let mut out = String::from_str("q=");
        out.append(self.search.as_str());
        out.append("&p=");
        push_decimal(&mut out, self.page as u64);
        out.append("&s=");
        let s = self.sort.to_string();
        out.append(s.as_str());
        out.append("&o=");
        let o = self.sort_order.to_string();
        out.append(o.as_str());
        out.append("&f=");
        let f = self.filter.to_string();
        out.append(f.as_str());
        out.append("&c=");
        let c = self.category.to_code();
        out.append(c.as_str());
        assert(out@ =~= self.rendered());
        out
    }
}

impl<C: Category> Default for Query<C> {
    fn default() -> (r: Query<C>)
        ensures
            r.search@ == Seq::<char>::empty(),
            r.page == 1,
            r.sort == Sort::Seeders,
            r.sort_order == SortOrder::Descending,
            r.filter == Filter::NoFilter,
            r.category == C::spec_default(),
    {
        Query {
            search: String::new(),
            page: 1,
            sort: Sort::Seeders,
            sort_order: SortOrder::Descending,
            filter: Filter::NoFilter,
            category: C::default_value(),
        }
    }
}


/// Collects the fields of a query, starting from the defaults: empty
/// search, page 1, by seeders, descending, no filter, all categories.
#[derive(Debug, Clone, PartialEq)]
pub struct QueryBuilder<C: Category> {
    pub search: String,
    pub page: u32,
    pub sort: Sort,
    pub sort_order: SortOrder,
    pub filter: Filter,
    pub category: C,
}

impl<C: Category> QueryBuilder<C> {
    pub fn new() -> (r: QueryBuilder<C>)
        ensures
            r.search@ == Seq::<char>::empty(),
            r.page == 1,
            r.sort == Sort::Seeders,
            r.sort_order == SortOrder::Descending,
            r.filter == Filter::NoFilter,
            r.category == C::spec_default(),
    {
        QueryBuilder {
            search: String::new(),
            page: 1,
            sort: Sort::Seeders,
            sort_order: SortOrder::Descending,
            filter: Filter::NoFilter,
            category: C::default_value(),
        }
    }

    /// The query of the collected fields. The category is always the
    /// default one, whatever was set here.
    pub fn build(self) -> (r: Query<C>)
        ensures
            r.search@ == self.search@,
            r.page == self.page,
            r.sort == self.sort,
            r.sort_order == self.sort_order,
            r.filter == self.filter,
            r.category == C::spec_default(),
    {
        Query {
            search: self.search,
            page: self.page,
            sort: self.sort,
            sort_order: self.sort_order,
            filter: self.filter,
            category: C::default_value(),
        }
    }

    pub fn search(self, search: &str) -> (r: QueryBuilder<C>)
        ensures
            r.search@ == search@,
            r.page == self.page,
            r.sort == self.sort,
            r.sort_order == self.sort_order,
            r.filter == self.filter,
            r.category == self.category,
    {
        QueryBuilder { search: String::from_str(search), ..self }
    }

    pub fn page(self, page: u32) -> (r: QueryBuilder<C>)
        ensures
            r.search@ == self.search@,
            r.page == page,
            r.sort == self.sort,
            r.sort_order == self.sort_order,
            r.filter == self.filter,
            r.category == self.category,
    {
        QueryBuilder { page, ..self }
    }

    pub fn sort(self, sort: Sort) -> (r: QueryBuilder<C>)
        ensures
            r.search@ == self.search@,
            r.page == self.page,
            r.sort == sort,
            r.sort_order == self.sort_order,
            r.filter == self.filter,
            r.category == self.category,
    {
        QueryBuilder { sort, ..self }
    }

    pub fn sort_order(self, sort_order: SortOrder) -> (r: QueryBuilder<C>)
        ensures
            r.search@ == self.search@,
            r.page == self.page,
            r.sort == self.sort,
            r.sort_order == sort_order,
            r.filter == self.filter,
            r.category == self.category,
    {
        QueryBuilder { sort_order, ..self }
    }

    pub fn filter(self, filter: Filter) -> (r: QueryBuilder<C>)
        ensures
            r.search@ == self.search@,
            r.page == self.page,
            r.sort == self.sort,
            r.sort_order == self.sort_order,
            r.filter == filter,
            r.category == self.category,
    {
        QueryBuilder { filter, ..self }
    }

    pub fn category(self, category: C) -> (r: QueryBuilder<C>)
        ensures
            r.search@ == self.search@,
            r.page == self.page,
            r.sort == self.sort,
            r.sort_order == self.sort_order,
            r.filter == self.filter,
            r.category == category,
    {
        QueryBuilder { category, ..self }
    }
}

impl<C: Category> Default for QueryBuilder<C> {
    fn default() -> (r: QueryBuilder<C>)
        ensures
            r.search@ == Seq::<char>::empty(),
            r.page == 1,
            r.sort == Sort::Seeders,
            r.sort_order == SortOrder::Descending,
            r.filter == Filter::NoFilter,
            r.category == C::spec_default(),
    {
        QueryBuilder::new()
    }
}


/// The address of a listing: the site's base address, "/?" and the query
/// string.
pub fn listing_url<C: Category>(base_url: &str, query: &Query<C>) -> (r: String)
    ensures
        r@ == base_url@ + "/?"@ + query.rendered(),
{
    let mut out = String::from_str(base_url);
    out.append("/?");
    let q = query.to_string();
    out.append(q.as_str());
    out
}

impl std::str::FromStr for SortOrder {
    type Err = String;

    fn from_str(s: &str) -> Result<SortOrder, String> {
        SortOrder::from_str(s)
    }
}

impl std::str::FromStr for Sort {
    type Err = String;

    fn from_str(s: &str) -> Result<Sort, String> {
        Sort::from_str(s)
    }
}

} // verus!
