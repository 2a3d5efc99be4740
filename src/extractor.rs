use vstd::prelude::*;
use vstd::string::*;
use crate::digits::{is_numeral, digits_value, parse_digits};
use crate::error::{Error, ErrorView};
use crate::model::{Size, Torrent, TorrentView, size_of_text, invalid_size_message};

verus! {

/// The rows of the listing table.
pub const ROW_SELECTOR: &'static str = "table>tbody>tr";
/// The last anchor of the second cell: the first one is the category icon.
pub const TITLE_SELECTOR: &'static str = "td:nth-of-type(2)>a:last-child";
/// The first anchor of the third cell: the torrent's own page.
pub const LINK_SELECTOR: &'static str = "td:nth-of-type(3)>a:first-child";
/// The last anchor of the third cell: the magnet URI.
pub const MAGNET_SELECTOR: &'static str = "td:nth-of-type(3)>a:last-child";
pub const SIZE_SELECTOR: &'static str = "td:nth-of-type(4)";
pub const DATE_SELECTOR: &'static str = "td:nth-of-type(5)";
pub const SEEDERS_SELECTOR: &'static str = "td:nth-of-type(6)";
pub const LEECHERS_SELECTOR: &'static str = "td:nth-of-type(7)";
pub const DOWNLOADS_SELECTOR: &'static str = "td:nth-of-type(8)";
pub const HREF: &'static str = "href";
pub const TIMESTAMP_ATTR: &'static str = "data-timestamp";

pub const TITLE_MISSING: &'static str = "Title not found";
pub const LINK_MISSING: &'static str = "Link not found";
pub const MAGNET_MISSING: &'static str = "magnet not found";
pub const SEEDERS_MISSING: &'static str = "Seeders not found";
pub const LEECHERS_MISSING: &'static str = "Leechers not found";
pub const DOWNLOADS_MISSING: &'static str = "Downloads not found";
pub const SIZE_MISSING: &'static str = "Size not found";
pub const DATE_MISSING: &'static str = "Date not found";
pub const BAD_SELECTOR: &'static str = "Invalid selector";

/// Whether a UTC instant exists at these milliseconds since the epoch: the
/// instants from -262143-01-01T00:00:00Z to 262142-12-31T23:59:59.999Z.
pub open spec fn utc_millis_in_range(ms: int) -> bool {
    -8_334_601_228_800_000 <= ms <= 8_210_266_876_799_999
}

/// Relies on chrono's `DateTime::from_timestamp_millis`, which gives an
/// instant exactly for the milliseconds of the years -262143 to 262142
/// (`MIN_YEAR` and `MAX_YEAR` of its `NaiveDate`).
#[verifier::external_body]
fn utc_millis_representable(ms: i64) -> (r: bool)
    ensures
        r == utc_millis_in_range(ms as int),
{
    chrono::DateTime::from_timestamp_millis(ms).is_some()
}


/// A count of people or downloads as std reads a `u32`: an optional '+'
/// and digits.
pub open spec fn unsigned_text(s: Seq<char>) -> Option<nat> {
    let body = if s.len() > 0 && s[0] == '+' { s.drop_first() } else { s };
    if is_numeral(body) {
        Some(digits_value(body))
    } else {
        None
    }
}

pub open spec fn count_of_text(s: Seq<char>) -> Option<u32> {
    match unsigned_text(s) {
        Some(v) => if v <= u32::MAX { Some(v as u32) } else { None },
        None => None,
    }
}

/// An integer with an optional sign.
pub open spec fn signed_text(s: Seq<char>) -> Option<int> {
    if s.len() > 0 && s[0] == '-' {
        if is_numeral(s.drop_first()) {
            Some(-digits_value(s.drop_first()))
        } else {
            None
        }
    } else {
        match unsigned_text(s) {
            Some(v) => Some(v as int),
            None => None,
        }
    }
}

pub open spec fn timestamp_of_text(s: Seq<char>) -> Option<i64> {
    match signed_text(s) {
        Some(v) => if i64::MIN <= v <= i64::MAX { Some(v as i64) } else { None },
        None => None,
    }
}

/// The publication instant, in milliseconds, of a timestamp in seconds; the
/// epoch where the milliseconds leave `i64` or the range of UTC instants.
pub open spec fn date_of_seconds(secs: int) -> i64 {
    let ms = secs * 1000;
    if i64::MIN <= ms <= i64::MAX && utc_millis_in_range(ms) {
        ms as i64
    } else {
        0
    }
}

/// Reads a count: an optional '+' and digits, at most `u32::MAX`.
pub fn parse_count(s: &str) -> (r: Option<u32>)
    ensures
        r == count_of_text(s@),
{
    let n = s.unicode_len();
    let start: usize = if n > 0 && s.get_char(0) == '+' { 1 } else { 0 };
    proof {
        if start == 1 {
            assert(s@.subrange(1, n as int) =~= s@.drop_first());
        } else {
            assert(s@.subrange(0, n as int) =~= s@);
        }
    }
    match parse_digits(s, start, n, 4294967295) {
        Some(v) => Some(v as u32),
        None => None,
    }
}

/// Reads a timestamp: an optional sign and digits, within `i64`.
pub fn parse_timestamp(s: &str) -> (r: Option<i64>)
    ensures
        r == timestamp_of_text(s@),
{
    let n = s.unicode_len();
    if n > 0 && s.get_char(0) == '-' {
        assert(s@.subrange(1, n as int) =~= s@.drop_first());
        match parse_digits(s, 1, n, 9223372036854775808) {
            Some(v) => {
                if v == 9223372036854775808 {
                    Some(i64::MIN)
                } else {
                    Some(-(v as i64))
                }
            },
            None => None,
        }
    } else {
        let start: usize = if n > 0 && s.get_char(0) == '+' { 1 } else { 0 };
        proof {
            if start == 1 {
                assert(s@.subrange(1, n as int) =~= s@.drop_first());
            } else {
                assert(s@.subrange(0, n as int) =~= s@);
            }
        }
        match parse_digits(s, start, n, 9223372036854775807) {
            Some(v) => Some(v as i64),
            None => None,
        }
    }
}

/// The publication instant of a timestamp in seconds, as milliseconds since
/// the epoch; the epoch itself where there is no such instant.
pub fn millis_of_seconds(secs: i64) -> (r: i64)
    ensures
        r == date_of_seconds(secs as int),
{
    let ms: i128 = secs as i128 * 1000;
    if ms >= i64::MIN as i128 && ms <= i64::MAX as i128 && utc_millis_representable(ms as i64) {
        ms as i64
    } else {
        0
    }
}


/// What one listing row holds where a record's fields are read: each is
/// `None` where the element, or its attribute, is missing from the row.
#[derive(Debug, Clone)]
pub struct RowCells {
    /// Text of the last anchor of the second cell.
    pub title: Option<String>,
    /// `href` of the first anchor of the third cell.
    pub link: Option<String>,
    /// `href` of the last anchor of the third cell.
    pub magnet: Option<String>,
    /// Text of the fourth cell.
    pub size: Option<String>,
    /// `data-timestamp` of the fifth cell.
    pub date: Option<String>,
    /// Text of the sixth cell.
    pub seeders: Option<String>,
    /// Text of the seventh cell.
    pub leechers: Option<String>,
    /// Text of the eighth cell.
    pub downloads: Option<String>,
}

pub struct RowCellsView {
    pub title: Option<Seq<char>>,
    pub link: Option<Seq<char>>,
    pub magnet: Option<Seq<char>>,
    pub size: Option<Seq<char>>,
    pub date: Option<Seq<char>>,
    pub seeders: Option<Seq<char>>,
    pub leechers: Option<Seq<char>>,
    pub downloads: Option<Seq<char>>,
}

pub open spec fn opt_view(o: Option<String>) -> Option<Seq<char>> {
    match o {
        Some(s) => Some(s@),
        None => None,
    }
}

impl View for RowCells {
    type V = RowCellsView;

    open spec fn view(&self) -> RowCellsView {
        RowCellsView {
            title: opt_view(self.title),
            link: opt_view(self.link),
            magnet: opt_view(self.magnet),
            size: opt_view(self.size),
            date: opt_view(self.date),
            seeders: opt_view(self.seeders),
            leechers: opt_view(self.leechers),
            downloads: opt_view(self.downloads),
        }
    }
}

pub open spec fn count_cell(o: Option<Seq<char>>) -> Option<u32> {
    match o {
        Some(s) => count_of_text(s),
        None => None,
    }
}

pub open spec fn timestamp_cell(o: Option<Seq<char>>) -> Option<i64> {
    match o {
        Some(s) => timestamp_of_text(s),
        None => None,
    }
}

/// The record of one row, or the error of the first field that cannot be
/// read, in the order title, link, magnet, seeders, leechers, downloads,
/// size, date.
pub open spec fn row_outcome(c: RowCellsView, base: Seq<char>) -> Result<TorrentView, ErrorView> {
    if c.title is None {
        Err(ErrorView::Selector(TITLE_MISSING@))
    } else if c.link is None {
        Err(ErrorView::Selector(LINK_MISSING@))
    } else if c.magnet is None {
        Err(ErrorView::Selector(MAGNET_MISSING@))
    } else if count_cell(c.seeders) is None {
        Err(ErrorView::Selector(SEEDERS_MISSING@))
    } else if count_cell(c.leechers) is None {
        Err(ErrorView::Selector(LEECHERS_MISSING@))
    } else if count_cell(c.downloads) is None {
        Err(ErrorView::Selector(DOWNLOADS_MISSING@))
    } else if c.size is None {
        Err(ErrorView::Selector(SIZE_MISSING@))
    } else if size_of_text(c.size->Some_0) is None {
        Err(ErrorView::SizeParsing(invalid_size_message(c.size->Some_0)))
    } else if timestamp_cell(c.date) is None {
        Err(ErrorView::Selector(DATE_MISSING@))
    } else {
        Ok(
            TorrentView {
                title: c.title->Some_0,
                link: base + c.link->Some_0,
                magnet_url: c.magnet->Some_0,
                date: date_of_seconds(timestamp_cell(c.date)->Some_0 as int),
                seeders: count_cell(c.seeders)->Some_0,
                leechers: count_cell(c.leechers)->Some_0,
                downloads: count_cell(c.downloads)->Some_0,
                size: size_of_text(c.size->Some_0)->Some_0,
            },
        )
    }
}

pub open spec fn torrent_result_view(r: Result<Torrent, Error>) -> Result<TorrentView, ErrorView> {
    match r {
        Ok(t) => Ok(t@),
        Err(e) => Err(e@),
    }
}

fn missing(m: &str) -> (e: Error)
    ensures
        e@ == ErrorView::Selector(m@),
{
    Error::SelectorError(String::from_str(m))
}

fn read_count(cell: &Option<String>, m: &str) -> (r: Result<u32, Error>)
    ensures
        match count_cell(opt_view(*cell)) {
            Some(v) => r matches Ok(x) && x == v,
            None => r matches Err(e) && e@ == ErrorView::Selector(m@),
        },
{
    match cell {
        Some(t) => match parse_count(t.as_str()) {
            Some(v) => Ok(v),
            None => Err(missing(m)),
        },
        None => Err(missing(m)),
    }
}

/// Builds the record of one row from its cells: the link is `base_url`
/// followed by the `href`; the date is the timestamp's seconds in
/// milliseconds, or the epoch where no instant has them.
pub fn torrent_from_cells(cells: &RowCells, base_url: &str) -> (r: Result<Torrent, Error>)
    ensures
        torrent_result_view(r) == row_outcome(cells@, base_url@),
{
    let title = match &cells.title {
        Some(t) => t.clone(),
        None => return Err(missing(TITLE_MISSING)),
    };
    let link = match &cells.link {
        Some(h) => {
            let mut l = String::from_str(base_url);
            l.append(h.as_str());
            l
        },
        None => return Err(missing(LINK_MISSING)),
    };
    let magnet_url = match &cells.magnet {
        Some(m) => m.clone(),
        None => return Err(missing(MAGNET_MISSING)),
    };
    let seeders = match read_count(&cells.seeders, SEEDERS_MISSING) {
        Ok(v) => v,
        Err(e) => return Err(e),
    };
    let leechers = match read_count(&cells.leechers, LEECHERS_MISSING) {
        Ok(v) => v,
        Err(e) => return Err(e),
    };
    let downloads = match read_count(&cells.downloads, DOWNLOADS_MISSING) {
        Ok(v) => v,
        Err(e) => return Err(e),
    };
    let size = match &cells.size {
        Some(t) => match Size::from_str(t.as_str()) {
            Ok(v) => v,
            Err(e) => return Err(e),
        },
        None => return Err(missing(SIZE_MISSING)),
    };
    let date = match &cells.date {
        Some(t) => match parse_timestamp(t.as_str()) {
            Some(secs) => millis_of_seconds(secs),
            None => return Err(missing(DATE_MISSING)),
        },
        None => return Err(missing(DATE_MISSING)),
    };
    let r = Torrent { title, link, magnet_url, date, seeders, leechers, downloads, size };
    assert(r@ == row_outcome(cells@, base_url@)->Ok_0);
    Ok(r)
}


pub open spec fn cells_view(rows: Seq<RowCells>) -> Seq<RowCellsView> {
    rows.map_values(|c: RowCells| c@)
}

pub open spec fn torrents_view(ts: Seq<Torrent>) -> Seq<TorrentView> {
    ts.map_values(|t: Torrent| t@)
}

/// The records of the rows in order, or the error of the first row that
/// cannot be read: never a part of the list.
pub open spec fn rows_outcome(rows: Seq<RowCellsView>, base: Seq<char>) -> Result<Seq<TorrentView>, ErrorView>
    decreases rows.len(),
{
    if rows.len() == 0 {
        Ok(Seq::empty())
    } else {
        match rows_outcome(rows.drop_last(), base) {
            Err(e) => Err(e),
            Ok(v) => match row_outcome(rows.last(), base) {
                Err(e) => Err(e),
                Ok(t) => Ok(v.push(t)),
            },
        }
    }
}

pub open spec fn torrents_result_view(r: Result<Vec<Torrent>, Error>) -> Result<Seq<TorrentView>, ErrorView> {
    match r {
        Ok(ts) => Ok(torrents_view(ts@)),
        Err(e) => Err(e@),
    }
}

/// Builds the records of all rows, in order; the first row that cannot be
/// read fails the whole call.
pub fn torrents_from_rows(rows: &Vec<RowCells>, base_url: &str) -> (r: Result<Vec<Torrent>, Error>)
    ensures
        torrents_result_view(r) == rows_outcome(cells_view(rows@), base_url@),
{
    let mut out: Vec<Torrent> = Vec::new();
    let mut i: usize = 0;
    assert(cells_view(rows@.take(0)) =~= Seq::<RowCellsView>::empty());
    assert(torrents_view(out@) =~= Seq::<TorrentView>::empty());
    while i < rows.len()
        invariant
            0 <= i <= rows@.len(),
            rows_outcome(cells_view(rows@.take(i as int)), base_url@) == Ok::<Seq<TorrentView>, ErrorView>(torrents_view(out@)),
        decreases rows@.len() - i,
    {
        let ghost prefix = cells_view(rows@.take(i as int));
        let ghost next = cells_view(rows@.take(i + 1));
        assert(next.drop_last() =~= prefix);
        assert(next.last() == rows@[i as int]@);
        match torrent_from_cells(&rows[i], base_url) {
            Ok(t) => {
                let ghost before = out@;
                out.push(t);
                assert(torrents_view(out@) =~= torrents_view(before).push(t@));
            },
            Err(e) => {
                proof {
                    lemma_rows_outcome_err(cells_view(rows@), base_url@, i + 1);
                    assert(cells_view(rows@).take(i + 1) =~= next);
                }
                return Err(e);
            },
        }
        i = i + 1;
    }
    assert(rows@.take(i as int) =~= rows@);
    Ok(out)
}

/// Once a prefix of the rows fails, so do all the rows.
pub proof fn lemma_rows_outcome_err(rows: Seq<RowCellsView>, base: Seq<char>, k: int)
    requires
        0 <= k <= rows.len(),
        rows_outcome(rows.take(k), base) is Err,
    ensures
        rows_outcome(rows, base) == rows_outcome(rows.take(k), base),
    decreases rows.len() - k,
{
    if k < rows.len() {
        let longer = rows.take(k + 1);
        assert(longer.drop_last() =~= rows.take(k));
        lemma_rows_outcome_err(rows, base, k + 1);
    } else {
        assert(rows.take(k) =~= rows);
    }
}


/// Per row that `rows` selects in the parsed document, and per selector of
/// `cells`, the text of its first match within the row; `None` where a
/// selector does not parse.
pub uninterp spec fn cell_texts(html: Seq<char>, rows: Seq<char>, cells: Seq<Seq<char>>) -> Option<Seq<Seq<Option<Seq<char>>>>>;

/// Per row that `rows` selects in the parsed document, and per pair of a
/// selector and an attribute name of `cells`, that attribute of the
/// selector's first match within the row; `None` where a selector does not
/// parse.
pub uninterp spec fn cell_attrs(html: Seq<char>, rows: Seq<char>, cells: Seq<(Seq<char>, Seq<char>)>) -> Option<Seq<Seq<Option<Seq<char>>>>>;

/// How many elements `rows` selects in the parsed document.
pub uninterp spec fn row_count(html: Seq<char>, rows: Seq<char>) -> nat;

pub open spec fn table_view(t: Vec<Vec<Option<String>>>) -> Seq<Seq<Option<Seq<char>>>> {
    t@.map_values(|r: Vec<Option<String>>| r@.map_values(|c: Option<String>| opt_view(c)))
}

pub open spec fn table_opt_view(t: Option<Vec<Vec<Option<String>>>>) -> Option<Seq<Seq<Option<Seq<char>>>>> {
    match t {
        Some(t) => Some(table_view(t)),
        None => None,
    }
}

/// A table with one line per row of the document and `width` cells a line.
pub open spec fn table_shape(t: Option<Vec<Vec<Option<String>>>>, rows: nat, width: nat) -> bool {
    t matches Some(v) ==> v@.len() == rows && forall|i: int| 0 <= i < v@.len() ==> (#[trigger] v@[i])@.len() == width
}

pub open spec fn strings_view(v: Seq<String>) -> Seq<Seq<char>> {
    v.map_values(|s: String| s@)
}

pub open spec fn pairs_view(v: Seq<(String, String)>) -> Seq<(Seq<char>, Seq<char>)> {
    v.map_values(|p: (String, String)| (p.0@, p.1@))
}

/// Relies on scraper: `Html::parse_document` (lenient HTML parsing),
/// `Selector::parse`, `select` on the document and on each row, and `text`
/// of an element.
#[verifier::external_body]
fn select_cell_texts(html: &str, rows: &str, cells: &Vec<String>) -> (r: Option<Vec<Vec<Option<String>>>>)
    ensures
        table_opt_view(r) == cell_texts(html@, rows@, strings_view(cells@)),
        table_shape(r, row_count(html@, rows@), cells@.len()),
{
    let doc = scraper::Html::parse_document(html);
    let row = scraper::Selector::parse(rows).ok()?;
    let mut sels = Vec::new();
    for c in cells.iter() {
        sels.push(scraper::Selector::parse(c).ok()?);
    }
    Some(doc.select(&row).map(|e| sels.iter().map(|s| e.select(s).next().map(|m| m.text().collect())).collect()).collect())
}

/// Relies on scraper: `Html::parse_document` (lenient HTML parsing),
/// `Selector::parse`, `select` on the document and on each row, and `attr`
/// of an element.
#[verifier::external_body]
fn select_cell_attrs(html: &str, rows: &str, cells: &Vec<(String, String)>) -> (r: Option<Vec<Vec<Option<String>>>>)
    ensures
        table_opt_view(r) == cell_attrs(html@, rows@, pairs_view(cells@)),
        table_shape(r, row_count(html@, rows@), cells@.len()),
{
    let doc = scraper::Html::parse_document(html);
    let row = scraper::Selector::parse(rows).ok()?;
    let mut sels = Vec::new();
    for (c, a) in cells.iter() {
        sels.push((scraper::Selector::parse(c).ok()?, a));
    }
    Some(doc.select(&row).map(|e| sels.iter().map(|(s, a)| e.select(s).next().and_then(|m| m.attr(a)).map(String::from)).collect()).collect())
}

pub open spec fn text_cells() -> Seq<Seq<char>> {
    seq![TITLE_SELECTOR@, SIZE_SELECTOR@, SEEDERS_SELECTOR@, LEECHERS_SELECTOR@, DOWNLOADS_SELECTOR@]
}

pub open spec fn attr_cells() -> Seq<(Seq<char>, Seq<char>)> {
    seq![(LINK_SELECTOR@, HREF@), (MAGNET_SELECTOR@, HREF@), (DATE_SELECTOR@, TIMESTAMP_ATTR@)]
}

/// The cells of each row, put together from the texts (title, size,
/// seeders, leechers, downloads) and the attributes (link, magnet, date).
pub open spec fn listing_rows(t: Seq<Seq<Option<Seq<char>>>>, a: Seq<Seq<Option<Seq<char>>>>) -> Seq<RowCellsView> {
    Seq::new(
        t.len(),
        |i: int|
            RowCellsView {
                title: t[i][0],
                link: a[i][0],
                magnet: a[i][1],
                size: t[i][1],
                date: a[i][2],
                seeders: t[i][2],
                leechers: t[i][3],
                downloads: t[i][4],
            },
    )
}

/// What extraction yields from a document: the rows' records, the first
/// row error, or a selector error where a selector does not parse.
pub open spec fn extract_outcome(html: Seq<char>, base: Seq<char>) -> Result<Seq<TorrentView>, ErrorView> {
    match (cell_texts(html, ROW_SELECTOR@, text_cells()), cell_attrs(html, ROW_SELECTOR@, attr_cells())) {
        (Some(t), Some(a)) => rows_outcome(listing_rows(t, a), base),
        _ => Err(ErrorView::Selector(BAD_SELECTOR@)),
    }
}

fn copy_cell(c: &Option<String>) -> (r: Option<String>)
    ensures
        opt_view(r) == opt_view(*c),
{
    match c {
        Some(s) => Some(s.clone()),
        None => None,
    }
}

/// Reads every row of the listing table in `html` into a record, in document
/// order; links are resolved against `base_url`. One row that cannot be read
/// fails the whole call.
pub fn extract(html: &str, base_url: &str) -> (r: Result<Vec<Torrent>, Error>)
    ensures
        torrents_result_view(r) == extract_outcome(html@, base_url@),
{
    let mut tc: Vec<String> = Vec::new();
    tc.push(String::from_str(TITLE_SELECTOR));
    tc.push(String::from_str(SIZE_SELECTOR));
    tc.push(String::from_str(SEEDERS_SELECTOR));
    tc.push(String::from_str(LEECHERS_SELECTOR));
    tc.push(String::from_str(DOWNLOADS_SELECTOR));
    let mut ac: Vec<(String, String)> = Vec::new();
    ac.push((String::from_str(LINK_SELECTOR), String::from_str(HREF)));
    ac.push((String::from_str(MAGNET_SELECTOR), String::from_str(HREF)));
    ac.push((String::from_str(DATE_SELECTOR), String::from_str(TIMESTAMP_ATTR)));
    assert(strings_view(tc@) =~= text_cells());
    assert(pairs_view(ac@) =~= attr_cells());
    let texts = select_cell_texts(html, ROW_SELECTOR, &tc);
    let attrs = select_cell_attrs(html, ROW_SELECTOR, &ac);
    let (texts, attrs) = match (texts, attrs) {
        (Some(t), Some(a)) => (t, a),
        _ => return Err(missing(BAD_SELECTOR)),
    };
    let ghost tv = table_view(texts);
    let ghost av = table_view(attrs);
    let ghost want = listing_rows(tv, av);
    let mut rows: Vec<RowCells> = Vec::new();
    let mut i: usize = 0;
    while i < texts.len()
        invariant
            0 <= i <= texts@.len(),
            texts@.len() == attrs@.len(),
            tv == table_view(texts),
            av == table_view(attrs),
            want == listing_rows(tv, av),
            table_shape(Some(texts), texts@.len() as nat, 5),
            table_shape(Some(attrs), texts@.len() as nat, 3),
            rows@.len() == i,
            forall|j: int| 0 <= j < i ==> (#[trigger] rows@[j])@ == want[j],
        decreases texts@.len() - i,
    {
        let t = &texts[i];
        let a = &attrs[i];
        assert(t@.len() == 5);
        assert(a@.len() == 3);
        let cells = RowCells {
            title: copy_cell(&t[0]),
            link: copy_cell(&a[0]),
            magnet: copy_cell(&a[1]),
            size: copy_cell(&t[1]),
            date: copy_cell(&a[2]),
            seeders: copy_cell(&t[2]),
            leechers: copy_cell(&t[3]),
            downloads: copy_cell(&t[4]),
        };
        assert(cells@ == want[i as int]);
        rows.push(cells);
        i = i + 1;
    }
    assert(cells_view(rows@) =~= want);
    torrents_from_rows(&rows, base_url)
}


/// Extraction is all or nothing: it succeeds exactly when every row can be
/// read, and then it yields one record per row, in row order, each the
/// row's own record.
pub proof fn lemma_rows_all_or_nothing(rows: Seq<RowCellsView>, base: Seq<char>)
    ensures
        rows_outcome(rows, base) is Ok <==> (forall|i: int| 0 <= i < rows.len() ==> (#[trigger] row_outcome(rows[i], base)) is Ok),
        rows_outcome(rows, base) is Ok ==> {
            let v = rows_outcome(rows, base)->Ok_0;
            &&& v.len() == rows.len()
            &&& forall|i: int| 0 <= i < rows.len() ==> #[trigger] row_outcome(rows[i], base) == Ok::<TorrentView, ErrorView>(v[i])
        },
    decreases rows.len(),
{
    if rows.len() > 0 {
        let init = rows.drop_last();
        let n = rows.len() - 1;
        lemma_rows_all_or_nothing(init, base);
        assert forall|i: int| 0 <= i < init.len() implies #[trigger] init[i] == rows[i] by {}
        match rows_outcome(init, base) {
            Ok(v0) => match row_outcome(rows[n], base) {
                Ok(t) => {
                    let v = v0.push(t);
                    assert(rows_outcome(rows, base) == Ok::<Seq<TorrentView>, ErrorView>(v));
                    assert forall|i: int| 0 <= i < rows.len() implies #[trigger] row_outcome(rows[i], base) == Ok::<TorrentView, ErrorView>(v[i]) by {
                        if i < n {
                            assert(row_outcome(init[i], base) == Ok::<TorrentView, ErrorView>(v0[i]));
                        }
                    }
                },
                Err(e) => {
                    assert(rows_outcome(rows, base) is Err);
                },
            },
            Err(e) => {
                assert(rows_outcome(rows, base) is Err);
                let i = choose|i: int| 0 <= i < init.len() && !(row_outcome(init[i], base) is Ok);
                assert(row_outcome(rows[i], base) is Err);
            },
        }
    } else {
        assert(rows_outcome(rows, base) == Ok::<Seq<TorrentView>, ErrorView>(Seq::empty()));
    }
}

} // verus!
