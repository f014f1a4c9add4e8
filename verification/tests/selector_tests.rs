use konachan_wallpaper::selector::{gen_query, page_for, pick_index, random_page, random_pick, Filter, SelectionError};

#[test]
fn test_gen_query() {
    let url1 = gen_query(0, Filter::All, false);
    // The query builder always appends a question mark, whether or not
    // any parameter follows.  That is acceptable to the API.
    assert_eq!(url1.as_str(), "https://konachan.com/post.json?");

    let url2 = gen_query(10, Filter::All, false);
    assert_eq!(url2.as_str(), "https://konachan.com/post.json?page=10");

    let url3 = gen_query(10, Filter::Safe, false);
    assert_eq!(
        url3.as_str(),
        "https://konachan.com/post.json?page=10&tags=rating%3Asafe"
    );

    let url4 = gen_query(10, Filter::Safe, true);
    assert_eq!(
        url4.as_str(),
        "https://konachan.com/post.json?page=10&tags=width%3A2560..+height%3A1600..+rating%3Asafe"
    );
}

#[test]
fn test_gen_query_unfiltered_hi_resolution() {
    // With no filter only the first resolution tag is sent.
    let url = gen_query(0, Filter::All, true);
    assert_eq!(url.as_str(), "https://konachan.com/post.json?tags=width%3A2560..");

    let url = gen_query(7, Filter::All, true);
    assert_eq!(url.as_str(), "https://konachan.com/post.json?page=7&tags=width%3A2560..");
}

#[test]
fn test_gen_query_other_filters() {
    let url = gen_query(3, Filter::Explicit, false);
    assert_eq!(
        url.as_str(),
        "https://konachan.com/post.json?page=3&tags=rating%3Aexplicit"
    );
    let url = gen_query(0, Filter::Questionable, true);
    assert_eq!(
        url.as_str(),
        "https://konachan.com/post.json?tags=width%3A2560..+height%3A1600..+rating%3Aquestionable"
    );
}

#[test]
fn test_get_limit_table() {
    assert_eq!(Filter::All.get_limit(false), 13000);
    assert_eq!(Filter::Safe.get_limit(false), 2200);
    assert_eq!(Filter::Questionable.get_limit(false), 2800);
    assert_eq!(Filter::Explicit.get_limit(false), 1400);
    assert_eq!(Filter::All.get_limit(true), 2000);
    assert_eq!(Filter::Safe.get_limit(true), 1200);
    assert_eq!(Filter::Questionable.get_limit(true), 650);
    assert_eq!(Filter::Explicit.get_limit(true), 300);
}

#[test]
fn test_page_for_reduces_seed() {
    assert_eq!(page_for(13005, Filter::All, false), 5);
    assert_eq!(page_for(0, Filter::Safe, false), 0);
    assert_eq!(page_for(2200, Filter::Safe, false), 0);
    assert_eq!(page_for(2199, Filter::Safe, false), 2199);
    assert_eq!(page_for(u32::MAX, Filter::Explicit, true), 195);
}

#[test]
fn test_page_for_deterministic_and_bounded() {
    let filters = [Filter::All, Filter::Safe, Filter::Explicit, Filter::Questionable];
    let seeds = [0u32, 1, 999, 123456789, u32::MAX];
    for &f in filters.iter() {
        for &hr in [false, true].iter() {
            for &seed in seeds.iter() {
                let page = page_for(seed, f, hr);
                assert!(page < f.get_limit(hr));
                assert_eq!(page, page_for(seed, f, hr));
            }
        }
    }
}

#[test]
fn test_from_string() {
    assert_eq!(Filter::from_string("safe"), Ok(Filter::Safe));
    assert_eq!(Filter::from_string("Safe"), Ok(Filter::Safe));
    assert_eq!(Filter::from_string("EXPLICIT"), Ok(Filter::Explicit));
    assert_eq!(Filter::from_string("questionable"), Ok(Filter::Questionable));
    assert_eq!(Filter::from_string("NoNe"), Ok(Filter::All));
    assert_eq!(
        Filter::from_string("everything"),
        Err(SelectionError::UnsupportedFilter)
    );
    assert_eq!(Filter::from_string(""), Err(SelectionError::UnsupportedFilter));
    assert_eq!(Filter::from_string("safe "), Err(SelectionError::UnsupportedFilter));
}

#[test]
fn test_pick_index() {
    assert_eq!(pick_index(25, 41), Ok(1));
    assert_eq!(pick_index(1, 20), Ok(0));
    assert_eq!(pick_index(1, 21), Err(SelectionError::ResultSetTooSmall));
    assert_eq!(pick_index(0, 5), Err(SelectionError::ResultSetTooSmall));
    assert_eq!(pick_index(20, 19), Ok(19));
}

#[test]
fn test_random_pick_window() {
    for _ in 0..50 {
        let picked = random_pick(20).unwrap();
        assert!(picked < 20);
    }
    assert_eq!(random_pick(0), Err(SelectionError::ResultSetTooSmall));
}

#[test]
fn test_random_page_below_ceiling() {
    for _ in 0..50 {
        let page = random_page(Filter::Explicit, true);
        assert!(page < 300);
    }
}
