use pt_collector::provider::flickr_photos_provider::{FlickrPhoto, PageListing, Photos};
use pt_collector::storage::local_storage::LocalPhotoStorage;
use pt_collector::{Collector, ListingError, Photo, PhotoProvider, PhotoStorage, SaveError};

/// Answers listings with fixed pages, as a search server would.
struct PagedServer {
    pages: Vec<Photos>,
    malformed: bool,
    fetched: Vec<String>,
    fail_fetch: bool,
}

impl PhotoProvider for PagedServer {
    fn build_photos_metadata_list(&self) -> Result<Vec<Photo>, ListingError> {
        if self.malformed {
            return Err(ListingError::Malformed);
        }
        let mut listing = PageListing::new();
        while let Some(p) = listing.next_request() {
            listing.on_page(&self.pages[p as usize]);
        }
        listing.finish()
    }

    fn get_photo_data(&mut self, photo: &mut Photo) {
        self.fetched.push(photo.original_url.clone());
        if !self.fail_fetch {
            photo.bytes = Some(photo.original_url.as_bytes().to_vec());
        }
    }
}

/// Records the destination of each save.
struct NamingStorage {
    local: LocalPhotoStorage,
    written: Vec<String>,
    calls: usize,
}

impl PhotoStorage for NamingStorage {
    fn save_photo(&mut self, photo: &Photo) -> Result<(), SaveError> {
        self.calls += 1;
        let name = self.local.claim_destination(photo)?;
        self.written.push(name);
        Ok(())
    }
}

fn record(tags: &str, url: &str) -> FlickrPhoto {
    FlickrPhoto {
        id: String::from("id"),
        server: String::from("s"),
        farm: 1,
        ispublic: 1,
        tags: String::from(tags),
        url_o: String::from(url),
    }
}

fn one_page_server() -> PagedServer {
    let page = Photos {
        page: 0,
        pages: 1,
        perpage: 500,
        total: String::from("2"),
        photo: vec![record("a b", "u1"), record("", "u2")],
    };
    PagedServer { pages: vec![page], malformed: false, fetched: Vec::new(), fail_fetch: false }
}

fn storage() -> NamingStorage {
    NamingStorage { local: LocalPhotoStorage::new(&String::from("tmp")), written: Vec::new(), calls: 0 }
}

#[test]
fn collect_fetches_and_saves_tagged_photo_only() {
    let mut collector = Collector::new(one_page_server(), storage());
    assert_eq!(collector.collect(), Ok(1));
    assert_eq!(collector.photo_provider.fetched, vec!["u1"]);
    assert_eq!(collector.photo_storage.calls, 1);
    assert_eq!(collector.photo_storage.written, vec!["tmp/1.jpg"]);
}

#[test]
fn malformed_listing_aborts_without_saves() {
    let mut server = one_page_server();
    server.malformed = true;
    let mut collector = Collector::new(server, storage());
    assert_eq!(collector.collect(), Err(ListingError::Malformed));
    assert!(collector.photo_provider.fetched.is_empty());
    assert_eq!(collector.photo_storage.calls, 0);
}

#[test]
fn failed_fetches_are_saved_as_failures_and_the_run_goes_on() {
    let mut server = one_page_server();
    server.fail_fetch = true;
    let mut collector = Collector::new(server, storage());
    assert_eq!(collector.collect(), Ok(1));
    assert_eq!(collector.photo_storage.calls, 1);
    assert!(collector.photo_storage.written.is_empty());
    assert_eq!(collector.photo_storage.local.next_seq, 2);
}

#[test]
fn process_photos_keeps_list_order_and_drops_untagged() {
    let mut collector = Collector::new(one_page_server(), storage());
    let photo = |url: &str, tags: &[&str]| Photo {
        original_url: String::from(url),
        tags: tags.iter().map(|t| String::from(*t)).collect(),
        bytes: None,
    };
    collector.process_photos(vec![photo("x", &["t"]), photo("y", &[]), photo("z", &["q", "r"])]);
    assert_eq!(collector.photo_provider.fetched, vec!["x", "z"]);
    assert_eq!(collector.photo_storage.written, vec!["tmp/1.jpg", "tmp/2.jpg"]);
}
