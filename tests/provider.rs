use std::borrow::Cow;

use pt_collector::ListingError;

use pt_collector::provider::flickr_photos_provider::{
    make_query_param, record_to_photo, FlickrCollector, FlickrPhoto, FlickrRequestBuilder,
    PageListing, Photos, FLICKR_PATH, FLICKR_QUERY_METHOD, MAX_PHOTOS,
};

const API_KEY: &'static str = "Test API Key";

fn record(tags: &str, url: &str) -> FlickrPhoto {
    FlickrPhoto {
        id: String::from("1"),
        server: String::from("2"),
        farm: 3,
        ispublic: 1,
        tags: String::from(tags),
        url_o: String::from(url),
    }
}

fn page(page: i32, pages: i32, n: usize) -> Photos {
    let mut photo = Vec::new();
    for i in 0..n {
        photo.push(record("t", &format!("u{}", i)));
    }
    Photos { page, pages, perpage: 500, total: format!("{}", n), photo }
}

#[test]
fn new_collector_uses_key() {
    let collector = FlickrCollector::new(API_KEY);

    assert_eq!(API_KEY, collector.api_key);
}

#[test]
fn build_search_url() {
    let request_builder = FlickrRequestBuilder::new(String::from(API_KEY), 0);
    let url = request_builder.build_search_url();

    assert!(url.is_ok());
    let url = url.unwrap();

    assert_eq!(url.cannot_be_a_base(), false);

    assert_eq!(url.path(), FLICKR_PATH);

    let mut query_pairs = url.query_pairs();

    let param_method = Some((Cow::Borrowed("method"), Cow::Borrowed(FLICKR_QUERY_METHOD)));
    assert_eq!(query_pairs.next(), param_method);

    let param_api_key = Some((Cow::Borrowed("api_key"), Cow::Borrowed(API_KEY)));
    assert_eq!(query_pairs.next(), param_api_key);

    let param_license = Some((Cow::Borrowed("license"), Cow::Borrowed("4")));
    assert_eq!(query_pairs.next(), param_license);
}

#[test]
fn make_query_param_makes() {
    assert_eq!("=", make_query_param("", ""));
    assert_eq!("k=v", make_query_param("k", "v"));
    assert_ne!("v=k", make_query_param("k", "v"));
}

#[test]
fn build_query_lists_every_parameter_in_order() {
    let query = FlickrRequestBuilder::new(String::from("KEY"), 7).build_query();
    assert_eq!(
        query,
        "method=flickr.photos.search&api_key=KEY&license=4&format=json&nojsoncallback=1\
         &extras=tags,url_o&per_page=500&page=7"
    );
}

#[test]
fn build_query_writes_negative_page() {
    let query = FlickrRequestBuilder::new(String::from("K"), -12).build_query();
    assert!(query.ends_with("&page=-12"));
}

#[test]
fn search_url_carries_full_query() {
    let url = FlickrRequestBuilder::new(String::from("K"), 3).build_search_url().unwrap();
    assert_eq!(url.host_str(), Some("api.flickr.com"));
    let pairs: Vec<(String, String)> =
        url.query_pairs().map(|(k, v)| (k.into_owned(), v.into_owned())).collect();
    let keys: Vec<&str> = pairs.iter().map(|(k, _)| k.as_str()).collect();
    assert_eq!(
        keys,
        vec!["method", "api_key", "license", "format", "nojsoncallback", "extras", "per_page", "page"]
    );
    assert_eq!(pairs[3].1, "json");
    assert_eq!(pairs[4].1, "1");
    assert_eq!(pairs[7].1, "3");
}

#[test]
fn record_tags_split_on_whitespace() {
    let photo = record_to_photo(&record("a b\tc  d", "u1"));
    assert_eq!(photo.original_url, "u1");
    assert_eq!(photo.tags, vec!["a", "b", "c", "d"]);
    assert!(photo.bytes.is_none());
}

#[test]
fn record_with_empty_tags_has_none() {
    let photo = record_to_photo(&record("", "u2"));
    assert!(photo.tags.is_empty());
}

#[test]
fn listing_requests_each_page_in_order() {
    let mut listing = PageListing::new();
    let mut requested = Vec::new();
    while let Some(p) = listing.next_request() {
        requested.push(p);
        listing.on_page(&page(p, 3, 2));
    }
    assert_eq!(requested, vec![0, 1, 2]);
    assert_eq!(listing.finish().unwrap().len(), 6);
}

#[test]
fn listing_of_one_page_requests_once() {
    let mut listing = PageListing::new();
    assert_eq!(listing.next_request(), Some(0));
    listing.on_page(&page(0, 1, 2));
    assert_eq!(listing.next_request(), None);
}

#[test]
fn listing_stops_at_cap() {
    let mut listing = PageListing::new();
    let mut requests = 0;
    while let Some(p) = listing.next_request() {
        requests += 1;
        listing.on_page(&page(p, 100, 500));
    }
    assert_eq!(requests, 2);
    assert_eq!(listing.finish().unwrap().len(), MAX_PHOTOS);
}

#[test]
fn listing_keeps_photos_in_page_order() {
    let mut listing = PageListing::new();
    let mut first = page(0, 2, 0);
    first.photo.push(record("x", "a"));
    listing.on_page(&first);
    let mut second = page(1, 2, 0);
    second.photo.push(record("", "b"));
    listing.on_page(&second);
    let photos = listing.finish().unwrap();
    let urls: Vec<&str> = photos.iter().map(|p| p.original_url.as_str()).collect();
    assert_eq!(urls, vec!["a", "b"]);
    assert_eq!(photos[0].tags, vec!["x"]);
}

#[test]
fn listing_cuts_the_page_that_crosses_the_cap() {
    let sizes = [500usize, 499, 500, 500];
    let mut listing = PageListing::new();
    let mut requests = 0;
    while let Some(p) = listing.next_request() {
        requests += 1;
        listing.on_page(&page(p, 4, sizes[p as usize]));
    }
    assert_eq!(requests, 3);
    assert_eq!(listing.finish().unwrap().len(), MAX_PHOTOS);
}

#[test]
fn search_url_text_is_endpoint_path_and_query() {
    let (url, text) = FlickrRequestBuilder::new(String::from("KEY"), 2).build_search_url_text().unwrap();
    assert_eq!(
        text,
        "https://api.flickr.com/services/rest?method=flickr.photos.search&api_key=KEY&license=4\
         &format=json&nojsoncallback=1&extras=tags,url_o&per_page=500&page=2"
    );
    assert_eq!(url.as_str(), text);
}

#[test]
fn failed_page_fails_the_whole_listing() {
    let mut listing = PageListing::new();
    listing.on_page(&page(0, 3, 2));
    assert_eq!(listing.next_request(), Some(1));
    listing.on_failure(ListingError::Malformed);
    assert_eq!(listing.next_request(), None);
    assert!(matches!(listing.finish(), Err(ListingError::Malformed)));
}

#[test]
fn build_query_writes_extreme_pages() {
    let low = FlickrRequestBuilder::new(String::from("K"), i32::MIN).build_query();
    assert!(low.ends_with("&page=-2147483648"));
    let high = FlickrRequestBuilder::new(String::from("K"), i32::MAX).build_query();
    assert!(high.ends_with("&page=2147483647"));
    let zero = FlickrRequestBuilder::new(String::from("K"), 0).build_query();
    assert!(zero.ends_with("&page=0"));
}

#[test]
fn search_url_text_encodes_unsafe_key_characters() {
    let (_, text) = FlickrRequestBuilder::new(String::from("Test API Key"), 0).build_search_url_text().unwrap();
    assert!(text.contains("&api_key=Test%20API%20Key&"));
    let (_, text) = FlickrRequestBuilder::new(String::from("\u{e9}<\"#'>\t"), 0).build_search_url_text().unwrap();
    assert!(text.contains("&api_key=%C3%A9%3C%22%23%27%3E&"));
}
