use lodestone_api::database::U64;
use lodestone_api::routes::RouteResult;
use lodestone_api::routes::ScrapeError;
use lodestone_api::routes::index;
use lodestone_api::routes::invalid_page_message;
use lodestone_api::routes::linkshell::LinkshellData;
use lodestone_api::routes::search::CharacterSearchData;
use lodestone_api::routes::search::FreeCompanySearchData;
use lodestone_api::routes::search::LinkshellSearchData;

#[test]
fn index_greets() {
    assert_eq!(index(), "Hello, world!");
}

#[test]
fn error_wraps_the_message() {
    let r: RouteResult<u8> = RouteResult::error(String::from("oops"));
    match r {
        RouteResult::Error { error } => assert_eq!(error, "oops"),
        _ => panic!("expected the error outcome"),
    }
}

#[test]
fn from_fetch_ok_is_scraped() {
    let r: RouteResult<u8> = RouteResult::from_fetch(Ok(7));
    assert!(matches!(r, RouteResult::Scraped { result: 7 }));
}

#[test]
fn from_fetch_not_found() {
    let r: RouteResult<u8> = RouteResult::from_fetch(Err(ScrapeError::NotFound));
    assert!(matches!(r, RouteResult::NotFound));
}

#[test]
fn from_fetch_unexpected_response_is_surfaced_verbatim() {
    let r: RouteResult<u8> =
        RouteResult::from_fetch(Err(ScrapeError::UnexpectedResponse(String::from("http 500"))));
    match r {
        RouteResult::Error { error } => assert_eq!(error, "http 500"),
        _ => panic!("expected the error outcome"),
    }
}

#[test]
fn from_fetch_invalid_page_names_the_bound() {
    let r: RouteResult<u8> = RouteResult::from_fetch(Err(ScrapeError::InvalidPage(3)));
    match r {
        RouteResult::Error { error } => {
            assert_eq!(error, "invalid page (1 through 3 available)");
        },
        _ => panic!("expected the error outcome"),
    }
}

#[test]
fn from_fetch_internal_is_opaque() {
    let r: RouteResult<u8> = RouteResult::from_fetch(Err(ScrapeError::Internal));
    match r {
        RouteResult::Error { error } => {
            assert_eq!(error, "an internal error occurred. did the lodestone change?");
        },
        _ => panic!("expected the error outcome"),
    }
}

#[test]
fn page_messages_render_multi_digit_numbers() {
    assert_eq!(invalid_page_message(0), "invalid page (1 through 0 available)");
    assert_eq!(invalid_page_message(12), "invalid page (1 through 12 available)");
    assert_eq!(invalid_page_message(4071), "invalid page (1 through 4071 available)");
    assert_eq!(
        invalid_page_message(u64::MAX),
        "invalid page (1 through 18446744073709551615 available)"
    );
}

#[test]
fn from_sql_decodes_big_endian() {
    let bytes = [0u8, 0, 0, 0, 0, 0, 1, 2];
    match U64::from_sql(Some(&bytes)) {
        Ok(v) => assert_eq!(v, U64(258)),
        Err(_) => panic!("eight bytes must decode"),
    }
    let high = [0x12u8, 0x34, 0x56, 0x78, 0x9a, 0xbc, 0xde, 0xf0];
    match U64::from_sql(Some(&high)) {
        Ok(v) => assert_eq!(v, U64(0x1234_5678_9abc_def0)),
        Err(_) => panic!("eight bytes must decode"),
    }
}

#[test]
fn from_sql_rejects_null_and_short_values() {
    match U64::from_sql(None) {
        Err(e) => assert_eq!(e.message(), "unexpected null"),
        Ok(_) => panic!("null must not decode"),
    }
    let short = [1u8, 2, 3];
    match U64::from_sql(Some(&short)) {
        Err(e) => assert_eq!(e.message(), "failed to fill whole buffer"),
        Ok(_) => panic!("short input must not decode"),
    }
}

#[test]
fn parameter_digests_are_deterministic() {
    let a = LinkshellData { page: 1 };
    let b = LinkshellData { page: 1 };
    assert_eq!(a.as_hash(), b.as_hash());
    assert_ne!(a.as_hash(), LinkshellData { page: 2 }.as_hash());
}

#[test]
fn search_digests_separate_distinct_queries() {
    let base = CharacterSearchData {
        page: None,
        name: None,
        world: None,
        data_center: None,
        race: None,
        clan: None,
        grand_company: None,
    };
    let named = CharacterSearchData { name: Some(String::from("Rude Boy")), ..base_clone(&base) };
    let paged = CharacterSearchData { page: Some(2), ..base_clone(&base) };
    assert_ne!(base.as_hash(), named.as_hash());
    assert_ne!(base.as_hash(), paged.as_hash());
    assert_ne!(named.as_hash(), paged.as_hash());
    // absence digests differently from a present zero
    let zero = CharacterSearchData { page: Some(0), ..base_clone(&base) };
    assert_ne!(base.as_hash(), zero.as_hash());
}

fn base_clone(d: &CharacterSearchData) -> CharacterSearchData {
    CharacterSearchData {
        page: d.page,
        name: d.name.clone(),
        world: d.world.clone(),
        data_center: d.data_center.clone(),
        race: d.race.clone(),
        clan: d.clan.clone(),
        grand_company: d.grand_company.clone(),
    }
}

#[test]
fn other_search_digests_fold_their_fields() {
    let fc = FreeCompanySearchData {
        page: Some(1),
        name: Some(String::from("Maelstrom")),
        world: None,
        data_center: None,
        grand_company: None,
    };
    let fc2 = FreeCompanySearchData {
        page: Some(1),
        name: Some(String::from("Maelstrom")),
        world: None,
        data_center: None,
        grand_company: None,
    };
    assert_eq!(fc.as_hash(), fc2.as_hash());
    let ls = LinkshellSearchData {
        page: None,
        name: Some(String::from("alpha")),
        world: Some(String::from("Coeurl")),
        data_center: None,
    };
    let ls2 = LinkshellSearchData {
        page: None,
        name: Some(String::from("alpha")),
        world: Some(String::from("Adamantoise")),
        data_center: None,
    };
    assert_ne!(ls.as_hash(), ls2.as_hash());
}
