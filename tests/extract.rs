use nyaa_si::error::Error;
use nyaa_si::extractor::{extract, parse_count, parse_timestamp, millis_of_seconds, torrent_from_cells, torrents_from_rows, RowCells};
use nyaa_si::model::{Size, Torrent};

const BASE: &str = "https://nyaa.si";

fn row(title: &str, id: u32, size: &str, ts: &str, seeders: &str, leechers: &str, downloads: &str) -> String {
    format!(
        "<tr><td><a href=\"/?c=1_2\" title=\"Anime\"><img src=\"x.png\"></a></td>\
         <td><a href=\"/view/{id}#comments\" class=\"comments\">3</a><a href=\"/view/{id}\" title=\"{title}\">{title}</a></td>\
         <td class=\"text-center\"><a href=\"/download/{id}.torrent\"><i></i></a><a href=\"magnet:?xt=urn:btih:{id}\"><i></i></a></td>\
         <td class=\"text-center\">{size}</td>\
         <td class=\"text-center\" data-timestamp=\"{ts}\">2023-11-14 22:13</td>\
         <td class=\"text-center\">{seeders}</td><td class=\"text-center\">{leechers}</td><td class=\"text-center\">{downloads}</td></tr>"
    )
}

fn page(rows: &[String]) -> String {
    format!(
        "<html><body><div><table class=\"torrent-list\"><thead><tr><th>Category</th></tr></thead><tbody>{}</tbody></table></div></body></html>",
        rows.concat()
    )
}

fn cells() -> RowCells {
    RowCells {
        title: Some("Title".to_string()),
        link: Some("/download/7.torrent".to_string()),
        magnet: Some("magnet:?xt=urn:btih:7".to_string()),
        size: Some("700.0 MiB".to_string()),
        date: Some("1700000000".to_string()),
        seeders: Some("10".to_string()),
        leechers: Some("2".to_string()),
        downloads: Some("100".to_string()),
    }
}

fn selector_message(r: Result<Torrent, Error>) -> String {
    match r {
        Err(Error::SelectorError(m)) => m,
        other => panic!("unexpected {:?}", other),
    }
}

#[test]
fn extract_single_row() {
    let html = page(&[row("Frieren - 01", 1, "700.0 MiB", "1700000000", "10", "2", "100")]);
    let ts = extract(&html, BASE).unwrap();
    assert_eq!(ts.len(), 1);
    let t = &ts[0];
    assert_eq!(t.title, "Frieren - 01");
    assert_eq!(t.link, "https://nyaa.si/download/1.torrent");
    assert_eq!(t.magnet_url, "magnet:?xt=urn:btih:1");
    assert_eq!(t.size, Size::MB(7000));
    assert_eq!(t.date, 1_700_000_000_000);
    assert_eq!(t.seeders, 10);
    assert_eq!(t.leechers, 2);
    assert_eq!(t.downloads, 100);
}

#[test]
fn extract_keeps_row_order() {
    let html = page(&[
        row("first", 1, "1.0 GiB", "1", "5", "6", "7"),
        row("second", 2, "2.5 KiB", "2", "8", "9", "10"),
    ]);
    let ts = extract(&html, BASE).unwrap();
    assert_eq!(ts.len(), 2);
    assert_eq!(ts[0].title, "first");
    assert_eq!(ts[1].title, "second");
    assert_eq!(ts[1].size, Size::KB(25));
    assert_eq!(ts[1].date, 2000);
}

#[test]
fn extract_empty_table() {
    assert!(extract(&page(&[]), BASE).unwrap().is_empty());
    assert!(extract("<p>nothing here</p>", BASE).unwrap().is_empty());
}

#[test]
fn extract_fails_whole_page_on_missing_size_cell() {
    let good = row("good", 1, "1.0 GiB", "1", "5", "6", "7");
    let bad = "<tr><td></td><td><a href=\"/view/2\">bad</a></td>\
               <td><a href=\"/download/2.torrent\"></a><a href=\"magnet:?2\"></a></td></tr>"
        .to_string();
    let r = extract(&page(&[good, bad]), BASE);
    assert!(r.is_err());
}

#[test]
fn rows_fail_fast_on_missing_size() {
    let mut second = cells();
    second.size = None;
    let r = torrents_from_rows(&vec![cells(), second], BASE);
    match r {
        Err(Error::SelectorError(m)) => assert_eq!(m, "Size not found"),
        other => panic!("unexpected {:?}", other),
    }
}

#[test]
fn rows_all_read() {
    let ts = torrents_from_rows(&vec![cells(), cells()], BASE).unwrap();
    assert_eq!(ts.len(), 2);
    assert_eq!(ts[0].link, "https://nyaa.si/download/7.torrent");
}

#[test]
fn row_errors_name_first_missing_field() {
    let mut c = cells();
    c.title = None;
    assert_eq!(selector_message(torrent_from_cells(&c, BASE)), "Title not found");
    let mut c = cells();
    c.link = None;
    assert_eq!(selector_message(torrent_from_cells(&c, BASE)), "Link not found");
    let mut c = cells();
    c.magnet = None;
    assert_eq!(selector_message(torrent_from_cells(&c, BASE)), "magnet not found");
    let mut c = cells();
    c.seeders = Some("ten".to_string());
    c.size = None;
    assert_eq!(selector_message(torrent_from_cells(&c, BASE)), "Seeders not found");
    let mut c = cells();
    c.leechers = Some("-2".to_string());
    assert_eq!(selector_message(torrent_from_cells(&c, BASE)), "Leechers not found");
    let mut c = cells();
    c.downloads = None;
    assert_eq!(selector_message(torrent_from_cells(&c, BASE)), "Downloads not found");
    let mut c = cells();
    c.date = Some("soon".to_string());
    assert_eq!(selector_message(torrent_from_cells(&c, BASE)), "Date not found");
    let mut c = cells();
    c.date = None;
    assert_eq!(selector_message(torrent_from_cells(&c, BASE)), "Date not found");
}

#[test]
fn row_with_bad_size_is_size_error() {
    let mut c = cells();
    c.size = Some("700 MB".to_string());
    match torrent_from_cells(&c, BASE) {
        Err(Error::SizeParsingError(m)) => assert_eq!(m, "Invalid size: 700 MB"),
        other => panic!("unexpected {:?}", other),
    }
}

#[test]
fn date_falls_back_to_epoch_out_of_range() {
    assert_eq!(millis_of_seconds(1_700_000_000), 1_700_000_000_000);
    assert_eq!(millis_of_seconds(-1), -1000);
    assert_eq!(millis_of_seconds(9_000_000_000_000), 0);
    assert_eq!(millis_of_seconds(i64::MAX), 0);
    let mut c = cells();
    c.date = Some("9223372036854775807".to_string());
    assert_eq!(torrent_from_cells(&c, BASE).unwrap().date, 0);
}

#[test]
fn counts_and_timestamps_read_as_std_does() {
    assert_eq!(parse_count("10"), Some(10));
    assert_eq!(parse_count("+7"), Some(7));
    assert_eq!(parse_count("007"), Some(7));
    assert_eq!(parse_count("4294967295"), Some(u32::MAX));
    assert_eq!(parse_count("4294967296"), None);
    assert_eq!(parse_count(""), None);
    assert_eq!(parse_count("+"), None);
    assert_eq!(parse_count(" 1"), None);
    assert_eq!(parse_timestamp("-9223372036854775808"), Some(i64::MIN));
    assert_eq!(parse_timestamp("9223372036854775808"), None);
    assert_eq!(parse_timestamp("-12"), Some(-12));
    assert_eq!(parse_timestamp("-"), None);
}

#[test]
fn torrents_equal_by_link_only() {
    let a = torrent_from_cells(&cells(), BASE).unwrap();
    let mut c = cells();
    c.title = Some("Other".to_string());
    c.size = Some("1.0 TiB".to_string());
    let b = torrent_from_cells(&c, BASE).unwrap();
    assert!(a == b);
    let mut c = cells();
    c.link = Some("/download/8.torrent".to_string());
    let d = torrent_from_cells(&c, BASE).unwrap();
    assert!(a != d);
}

#[test]
fn date_range_is_chronos() {
    assert_eq!(millis_of_seconds(8_210_266_876_799), 8_210_266_876_799_000);
    assert_eq!(millis_of_seconds(8_210_266_876_800), 0);
    assert_eq!(millis_of_seconds(-8_334_601_228_800), -8_334_601_228_800_000);
    assert_eq!(millis_of_seconds(-8_334_601_228_801), 0);
}
