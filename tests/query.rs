use nyaa_si::query::listing_url;
use nyaa_si::{Category, Filter, NyaaCategory, Query, QueryBuilder, Sort, SortOrder, SukebeiCategory};

#[test]
fn builder_renders_with_default_category() {
    let q = QueryBuilder::new()
        .search("tengoku")
        .sort(Sort::Downloads)
        .category(NyaaCategory::Anime)
        .build();
    assert_eq!(q.to_string(), "q=tengoku&p=1&s=downloads&o=desc&f=0&c=0_0");
}

#[test]
fn builder_sets_every_field() {
    let q: Query<SukebeiCategory> = QueryBuilder::new()
        .search("dl")
        .page(3)
        .sort(Sort::Size)
        .sort_order(SortOrder::Ascending)
        .filter(Filter::TrustedOnly)
        .build();
    assert_eq!(q.to_string(), "q=dl&p=3&s=size&o=asc&f=2&c=0_0");
    assert_eq!(q.page, 3);
    assert_eq!(q.category, SukebeiCategory::All);
}

#[test]
fn query_default_renders() {
    let q: Query<NyaaCategory> = Query::default();
    assert_eq!(q.to_string(), "q=&p=1&s=seeders&o=desc&f=0&c=0_0");
    let b: QueryBuilder<NyaaCategory> = QueryBuilder::default();
    assert_eq!(b.build().to_string(), q.to_string());
}

#[test]
fn query_with_category_renders_its_code() {
    let mut q: Query<NyaaCategory> = Query::default();
    q.category = NyaaCategory::AnimeRaw;
    assert_eq!(q.to_string(), "q=&p=1&s=seeders&o=desc&f=0&c=1_4");
}

#[test]
fn listing_url_joins_base_and_query() {
    let q: Query<NyaaCategory> = QueryBuilder::new().search("frieren").build();
    assert_eq!(
        listing_url(nyaa_si::nyaa::BASE_URL, &q),
        "https://nyaa.si/?q=frieren&p=1&s=seeders&o=desc&f=0&c=0_0"
    );
}

#[test]
fn sort_tokens_round_trip() {
    for s in [Sort::Comments, Sort::Size, Sort::Date, Sort::Seeders, Sort::Leechers, Sort::Downloads] {
        assert_eq!(Sort::from_str(&s.to_string()).unwrap(), s);
    }
    assert_eq!(Sort::from_str("bogus").unwrap_err(), "Invalid sort");
    assert_eq!(Sort::default(), Sort::Seeders);
}

#[test]
fn sort_order_tokens() {
    assert_eq!(SortOrder::from_str("asc").unwrap(), SortOrder::Ascending);
    assert_eq!(SortOrder::from_str("desc").unwrap(), SortOrder::Descending);
    assert_eq!(SortOrder::from_str("up").unwrap_err(), "Invalid sort order");
    assert_eq!(SortOrder::Ascending.to_string(), "asc");
    assert_eq!(SortOrder::default(), SortOrder::Descending);
}

#[test]
fn filter_codes() {
    assert_eq!(Filter::from(0u8), Filter::NoFilter);
    assert_eq!(Filter::from(1u8), Filter::NoRemakes);
    assert_eq!(Filter::from(2u8), Filter::TrustedOnly);
    assert_eq!(Filter::from(7u8), Filter::NoFilter);
    assert_eq!(u8::from(Filter::TrustedOnly), 2);
    assert_eq!(Filter::NoRemakes.to_string(), "1");
    assert_eq!(Filter::default(), Filter::NoFilter);
}

#[test]
fn default_categories_are_all() {
    assert_eq!(NyaaCategory::default().to_code(), "0_0");
    assert_eq!(SukebeiCategory::default().to_code(), "0_0");
    assert_eq!(NyaaCategory::default_value(), NyaaCategory::All);
}

#[test]
fn nyaa_codes_are_unique() {
    let all = [
        NyaaCategory::All, NyaaCategory::Anime, NyaaCategory::AnimeMusicVideo, NyaaCategory::AnimeEnglishTranslated, NyaaCategory::AnimeNonEnglishTranslated, NyaaCategory::AnimeRaw,
        NyaaCategory::Audio, NyaaCategory::AudioLossless, NyaaCategory::AudioLossy, NyaaCategory::Literature, NyaaCategory::LiteratureEnglishTranslated,
        NyaaCategory::LiteratureNonEnglishTranslated, NyaaCategory::LiteratureRaw, NyaaCategory::LiveAction, NyaaCategory::LiveActionEnglishTranslated,
        NyaaCategory::LiveActionIdol, NyaaCategory::LiveActionNonEnglishTranslated, NyaaCategory::LiveActionRaw, NyaaCategory::Pictures, NyaaCategory::PicturesGraphics,
        NyaaCategory::PicturesPhotos, NyaaCategory::Software, NyaaCategory::SoftwareApplications, NyaaCategory::SoftwareGames,
    ];
    let codes: std::collections::HashSet<String> = all.iter().map(|c| c.to_code()).collect();
    assert_eq!(codes.len(), 24);
    assert_eq!(NyaaCategory::Anime.to_code(), "1_0");
    assert_eq!(NyaaCategory::AnimeRaw.to_code(), "1_4");
    assert_eq!(NyaaCategory::SoftwareGames.to_code(), "6_2");
}

#[test]
fn sukebei_codes_are_unique() {
    let all = [
        SukebeiCategory::All, SukebeiCategory::Art, SukebeiCategory::ArtAnime, SukebeiCategory::ArtDoujinshi, SukebeiCategory::ArtGames, SukebeiCategory::ArtManga, SukebeiCategory::ArtPictures, SukebeiCategory::RealLife,
        SukebeiCategory::RealLifePhotobooks, SukebeiCategory::RealLifeVideos,
    ];
    let codes: std::collections::HashSet<String> = all.iter().map(|c| c.to_code()).collect();
    assert_eq!(codes.len(), 10);
    assert_eq!(SukebeiCategory::ArtPictures.to_code(), "1_5");
    assert_eq!(SukebeiCategory::RealLifeVideos.to_code(), "2_2");
}

#[test]
fn query_types_compare_and_parse() {
    let a: nyaa_si::nyaa::NyaaQuery = QueryBuilder::new().search("x").build();
    let b: nyaa_si::nyaa::NyaaQuery = QueryBuilder::new().search("x").build();
    assert!(a == b);
    let s: Sort = "date".parse().unwrap();
    assert_eq!(s, Sort::Date);
    let o: SortOrder = "asc".parse().unwrap();
    assert_eq!(o, SortOrder::Ascending);
    let q: nyaa_si::sukebei::SukebeiQuery = Query::default();
    assert_eq!(q.category, SukebeiCategory::All);
}
