use vstd::prelude::*;
use vstd::string::*;

use crate::decimal::{digit_char, digits, i32_text, int_text, lemma_digits_short, pow10};
use crate::{ListingError, Photo, PhotoView};

verus! {

pub const FLICKR_ENDPOINT: &'static str = "https://api.flickr.com/";
pub const FLICKR_PATH: &'static str = "/services/rest";
pub const FLICKR_QUERY_METHOD: &'static str = "flickr.photos.search";

/// No listing gathers more photos than this, whatever the server reports.
pub const MAX_PHOTOS: usize = 1000;

#[verifier::external_type_specification]
#[verifier::external_body]
pub struct ExUrl(url::Url);

#[verifier::external_type_specification]
#[verifier::external_body]
pub struct ExParseError(url::ParseError);

/// A character that url's query setter keeps as it is in an `https` URL:
/// printable ASCII other than `"`, `#`, `<`, `>` and `'`.
pub open spec fn query_char_kept(c: char) -> bool {
    '!' <= c && c <= '~' && c != '"' && c != '#' && c != '<' && c != '>' && c != '\''
}

/// The upper-case hexadecimal digit of `d < 16`.
pub open spec fn hex_char(d: nat) -> char {
    if d < 10 { digit_char(d) }
    else if d == 10 { 'A' }
    else if d == 11 { 'B' }
    else if d == 12 { 'C' }
    else if d == 13 { 'D' }
    else if d == 14 { 'E' }
    else { 'F' }
}

/// The UTF-8 bytes of `c`.
pub open spec fn utf8_bytes(c: char) -> Seq<nat> {
    let u = (c as u32) as nat;
    if u < 0x80 {
        seq![u]
    } else if u < 0x800 {
        seq![0xC0 + u / 64, 0x80 + u % 64]
    } else if u < 0x10000 {
        seq![0xE0 + u / 4096, 0x80 + (u / 64) % 64, 0x80 + u % 64]
    } else {
        seq![0xF0 + u / 262144, 0x80 + (u / 4096) % 64, 0x80 + (u / 64) % 64, 0x80 + u % 64]
    }
}

/// `%XX` for each byte, in upper-case hexadecimal.
pub open spec fn percent_bytes(bs: Seq<nat>) -> Seq<char>
    decreases bs.len(),
{
    if bs.len() == 0 {
        Seq::empty()
    } else {
        percent_bytes(bs.drop_last()) + seq!['%', hex_char(bs.last() / 16), hex_char(bs.last() % 16)]
    }
}

/// How url writes one character of a query it is given: tabs and line
/// breaks are dropped, kept characters stay, the rest is percent-encoded.
pub open spec fn query_char_text(c: char) -> Seq<char> {
    if c == '\t' || c == '\n' || c == '\r' {
        Seq::empty()
    } else if query_char_kept(c) {
        seq![c]
    } else {
        percent_bytes(utf8_bytes(c))
    }
}

/// How url writes a query it is given, character by character.
pub open spec fn query_text(s: Seq<char>) -> Seq<char>
    decreases s.len(),
{
    if s.len() == 0 {
        Seq::empty()
    } else {
        query_text(s.drop_last()) + query_char_text(s.last())
    }
}

/// The text of the search URL whose query is written as `query`.
pub open spec fn search_url_text(query: Seq<char>) -> Seq<char> {
    "https://api.flickr.com/services/rest?"@ + query
}

/// Relies on url's `Url::parse`, `Url::set_path`, `Url::set_query` and
/// `Url::as_str`: the search endpoint parses; the path and the query replace
/// the URL's own, the query percent-encoded with the special-query set. The
/// bounds keep the URL under `u32::MAX` bytes, past which the setters panic.
#[verifier::external_body]
fn url_with_query(endpoint: &str, path: &str, query: &str) -> (r: Result<(url::Url, String), url::ParseError>)
    requires
        endpoint@.len() < 0x1000,
        path@.len() < 0x1000,
        query@.len() < 0x1000_0000,
    ensures
        r is Ok || endpoint@ != "https://api.flickr.com/"@,
        r is Ok && endpoint@ == "https://api.flickr.com/"@ && path@ == "/services/rest"@
            ==> (r->Ok_0).1@ == search_url_text(query_text(query@)),
{
    let mut url = url::Url::parse(endpoint)?;
    url.set_path(path);
    url.set_query(Some(query));
    let text = String::from(url.as_str());
    Ok((url, text))
}

/// What `str::split_whitespace` yields for a text.
pub uninterp spec fn whitespace_words(s: Seq<char>) -> Seq<Seq<char>>;

/// Relies on `str::split_whitespace`: the words of the text, in order; an
/// empty text has none.
#[verifier::external_body]
fn split_words(s: &str) -> (r: Vec<String>)
    ensures
        r@.map_values(|w: String| w@) == whitespace_words(s@),
        s@.len() == 0 ==> r@.len() == 0,
{
    s.split_whitespace().map(String::from).collect()
}

/// Reads photos from the search API with one API key.
pub struct FlickrCollector {
    pub api_key: String,
}

impl FlickrCollector {
    pub fn new(api_key: &str) -> (r: FlickrCollector)
        ensures
            r.api_key@ == api_key@,
    {
        let api_key: String = String::from_str(api_key);
        FlickrCollector { api_key }
    }
}

/// One photo record of a search response.
pub struct FlickrPhoto {
    pub id: String,
    pub server: String,
    pub farm: i32,
    pub ispublic: i8,
    pub tags: String,
    pub url_o: String,
}

/// The `photos` object of a search response: one page of records.
pub struct Photos {
    pub page: i32,
    pub pages: i32,
    pub perpage: i32,
    pub total: String,
    pub photo: Vec<FlickrPhoto>,
}

/// A whole search response.
pub struct FlickrResponseJson {
    pub photos: Photos,
    pub stat: String,
}

/// The photo that a record describes: its full-resolution address and its
/// tags, with no content yet.
pub open spec fn photo_of(record: FlickrPhoto) -> PhotoView {
    PhotoView {
        original_url: record.url_o@,
        tags: if record.tags@.len() == 0 { Seq::empty() } else { whitespace_words(record.tags@) },
        bytes: None,
    }
}

/// Builds the photo that a record describes.
pub fn record_to_photo(record: &FlickrPhoto) -> (r: Photo)
    ensures
        r@ == photo_of(*record),
        record.tags@.len() == 0 ==> r@.tags.len() == 0,
{
    let words = split_words(record.tags.as_str());
    let r = Photo { original_url: record.url_o.clone(), tags: words, bytes: None };
    proof {
        if record.tags@.len() == 0 {
            assert(r@.tags =~= Seq::<Seq<char>>::empty());
        } else {
            assert(r@.tags =~= whitespace_words(record.tags@));
        }
    }
    r
}

/// `key=value`.
pub open spec fn query_param(key: Seq<char>, value: Seq<char>) -> Seq<char> {
    key + "="@ + value
}

/// The query of a search for page `page`: method, key, license, format, no
/// JSONP wrapper, extra fields, page size and page, in this order.
pub open spec fn search_query(api_key: Seq<char>, page: int) -> Seq<char> {
    query_param("method"@, FLICKR_QUERY_METHOD@)
        + "&"@ + query_param("api_key"@, api_key)
        + "&"@ + query_param("license"@, "4"@)
        + "&"@ + query_param("format"@, "json"@)
        + "&"@ + query_param("nojsoncallback"@, "1"@)
        + "&"@ + query_param("extras"@, "tags,url_o"@)
        + "&"@ + query_param("per_page"@, "500"@)
        + "&"@ + query_param("page"@, int_text(page))
}

/// The parameters of a search for page `page`, as key and value, in the
/// order the request carries them. Only the key and the page vary.
pub open spec fn search_params(api_key: Seq<char>, page: int) -> Seq<(Seq<char>, Seq<char>)> {
    seq![
        ("method"@, FLICKR_QUERY_METHOD@),
        ("api_key"@, api_key),
        ("license"@, "4"@),
        ("format"@, "json"@),
        ("nojsoncallback"@, "1"@),
        ("extras"@, "tags,url_o"@),
        ("per_page"@, "500"@),
        ("page"@, int_text(page)),
    ]
}

/// `key=value` for each parameter, joined by `&`.
pub open spec fn join_params(ps: Seq<(Seq<char>, Seq<char>)>) -> Seq<char>
    decreases ps.len(),
{
    if ps.len() == 0 {
        Seq::empty()
    } else if ps.len() == 1 {
        query_param(ps[0].0, ps[0].1)
    } else {
        join_params(ps.drop_last()) + "&"@ + query_param(ps.last().0, ps.last().1)
    }
}

/// Every search query carries exactly the search parameters, each once, in
/// their order and with their fixed values.
pub proof fn lemma_search_query_lists_params(api_key: Seq<char>, page: int)
    ensures
        search_query(api_key, page) == join_params(search_params(api_key, page)),
{
    let ps = search_params(api_key, page);
    assert(ps.take(1).len() == 1 && ps.take(1)[0] == ps[0]);
    assert(ps.take(2).drop_last() =~= ps.take(1));
    assert(ps.take(3).drop_last() =~= ps.take(2));
    assert(ps.take(4).drop_last() =~= ps.take(3));
    assert(ps.take(5).drop_last() =~= ps.take(4));
    assert(ps.take(6).drop_last() =~= ps.take(5));
    assert(ps.take(7).drop_last() =~= ps.take(6));
    assert(ps.take(8).drop_last() =~= ps.take(7));
    assert(join_params(ps.take(1)) == query_param(ps[0].0, ps[0].1));
    assert(join_params(ps.take(2)) == join_params(ps.take(1)) + "&"@ + query_param(ps[1].0, ps[1].1));
    assert(join_params(ps.take(3)) == join_params(ps.take(2)) + "&"@ + query_param(ps[2].0, ps[2].1));
    assert(join_params(ps.take(4)) == join_params(ps.take(3)) + "&"@ + query_param(ps[3].0, ps[3].1));
    assert(join_params(ps.take(5)) == join_params(ps.take(4)) + "&"@ + query_param(ps[4].0, ps[4].1));
    assert(join_params(ps.take(6)) == join_params(ps.take(5)) + "&"@ + query_param(ps[5].0, ps[5].1));
    assert(join_params(ps.take(7)) == join_params(ps.take(6)) + "&"@ + query_param(ps[6].0, ps[6].1));
    assert(join_params(ps.take(8)) == join_params(ps.take(7)) + "&"@ + query_param(ps[7].0, ps[7].1));
    assert(ps.take(8) =~= ps);
}

/// The pieces of `s` between its `&` characters.
pub open spec fn split_amp(s: Seq<char>) -> Seq<Seq<char>>
    decreases s.len(),
{
    if s.len() == 0 {
        seq![Seq::empty()]
    } else {
        let parts = split_amp(s.drop_last());
        if s.last() == '&' {
            parts.push(Seq::empty())
        } else {
            parts.update(parts.len() - 1, parts.last().push(s.last()))
        }
    }
}

/// The text of a parameter before its first `=`.
pub open spec fn key_of(p: Seq<char>) -> Seq<char>
    decreases p.len(),
{
    if p.len() == 0 || p[0] == '=' {
        Seq::empty()
    } else {
        seq![p[0]] + key_of(p.drop_first())
    }
}

/// `s` holds no `c`.
pub open spec fn lacks(s: Seq<char>, c: char) -> bool {
    forall|i: int| 0 <= i < s.len() ==> s[i] != c
}

proof fn lemma_split_amp_len(s: Seq<char>)
    ensures
        split_amp(s).len() >= 1,
    decreases s.len(),
{
    if s.len() > 0 {
        lemma_split_amp_len(s.drop_last());
    }
}

proof fn lemma_split_amp_single(s: Seq<char>)
    requires
        lacks(s, '&'),
    ensures
        split_amp(s) == seq![s],
    decreases s.len(),
{
    if s.len() > 0 {
        lemma_split_amp_single(s.drop_last());
        assert(s.drop_last().push(s.last()) =~= s);
        assert(s.last() != '&');
        assert(seq![s.drop_last()].update(0, s) =~= seq![s]);
    } else {
        assert(s =~= Seq::<char>::empty());
    }
}

proof fn lemma_split_amp_join(a: Seq<char>, b: Seq<char>)
    ensures
        split_amp(a + seq!['&'] + b) == split_amp(a) + split_amp(b),
    decreases b.len(),
{
    let s = a + seq!['&'] + b;
    if b.len() == 0 {
        assert(s.drop_last() =~= a);
        assert(split_amp(a).push(Seq::empty()) =~= split_amp(a) + seq![Seq::<char>::empty()]);
        assert(b =~= Seq::<char>::empty());
    } else {
        lemma_split_amp_join(a, b.drop_last());
        lemma_split_amp_len(b.drop_last());
        assert(s.drop_last() =~= a + seq!['&'] + b.drop_last());
        let x = split_amp(a);
        let y = split_amp(b.drop_last());
        if b.last() == '&' {
            assert((x + y).push(Seq::empty()) =~= x + y.push(Seq::empty()));
        } else {
            assert((x + y).update((x + y).len() - 1, (x + y).last().push(b.last()))
                =~= x + y.update(y.len() - 1, y.last().push(b.last())));
        }
    }
}

proof fn lemma_key_of(k: Seq<char>, v: Seq<char>)
    requires
        lacks(k, '='),
    ensures
        key_of(k + seq!['='] + v) == k,
    decreases k.len(),
{
    let p = k + seq!['='] + v;
    if k.len() == 0 {
        assert(p[0] == '=');
        assert(k =~= Seq::<char>::empty());
    } else {
        assert(p.drop_first() =~= k.drop_first() + seq!['='] + v);
        lemma_key_of(k.drop_first(), v);
        assert(seq![k[0]] + k.drop_first() =~= k);
    }
}

proof fn lemma_lacks_concat(a: Seq<char>, b: Seq<char>, c: char)
    requires
        lacks(a, c),
        lacks(b, c),
    ensures
        lacks(a + b, c),
{
    assert forall|i: int| 0 <= i < (a + b).len() implies (a + b)[i] != c by {
        if i >= a.len() {
            assert((a + b)[i] == b[i - a.len()]);
        }
    }
}

proof fn lemma_digits_lack(n: nat, c: char)
    requires
        c == '&' || c == '=',
    ensures
        lacks(digits(n), c),
    decreases n,
{
    if n >= 10 {
        lemma_digits_lack(n / 10, c);
        lemma_lacks_concat(digits(n / 10), seq![digit_char(n % 10)], c);
        assert(digits(n) =~= digits(n / 10) + seq![digit_char(n % 10)]);
    }
}

proof fn lemma_param_piece(k: Seq<char>, v: Seq<char>)
    requires
        "="@ == seq!['='],
        lacks(k, '&'),
        lacks(k, '='),
        lacks(v, '&'),
    ensures
        split_amp(query_param(k, v)) == seq![query_param(k, v)],
        key_of(query_param(k, v)) == k,
{
    lemma_lacks_concat(k, "="@, '&');
    lemma_lacks_concat(k + "="@, v, '&');
    lemma_split_amp_single(query_param(k, v));
    lemma_key_of(k, v);
}

/// The pieces of a search query between its `&` characters are exactly the
/// search parameters, so their keys are method, api_key, license, format,
/// nojsoncallback, extras, per_page and page: each once, in this order.
/// Each parameter of a search query holds no `&`, and its key is the text
/// before its `=`.
proof fn lemma_search_query_pieces(api_key: Seq<char>, page: int)
    requires
        lacks(api_key, '&'),
        lacks(api_key, '='),
    ensures
        "&"@ == seq!['&'],
        forall|i: int| 0 <= i < 8 ==> split_amp(query_param(#[trigger] search_params(api_key, page)[i].0,
            search_params(api_key, page)[i].1)) == seq![query_param(search_params(api_key, page)[i].0,
            search_params(api_key, page)[i].1)],
        forall|i: int| 0 <= i < 8 ==> key_of(query_param(#[trigger] search_params(api_key, page)[i].0,
            search_params(api_key, page)[i].1)) == search_params(api_key, page)[i].0,
{
    lemma_query_literals();
    let t = int_text(page);
    if page < 0 {
        lemma_digits_lack((-page) as nat, '&');
        lemma_lacks_concat(seq!['-'], digits((-page) as nat), '&');
    } else {
        lemma_digits_lack(page as nat, '&');
    }
    assert(lacks(t, '&'));
    lemma_param_piece("method"@, FLICKR_QUERY_METHOD@);
    lemma_param_piece("api_key"@, api_key);
    lemma_param_piece("license"@, "4"@);
    lemma_param_piece("format"@, "json"@);
    lemma_param_piece("nojsoncallback"@, "1"@);
    lemma_param_piece("extras"@, "tags,url_o"@);
    lemma_param_piece("per_page"@, "500"@);
    lemma_param_piece("page"@, t);
}

pub proof fn lemma_search_query_keys(api_key: Seq<char>, page: int)
    requires
        lacks(api_key, '&'),
        lacks(api_key, '='),
    ensures
        split_amp(search_query(api_key, page)) == search_params(api_key, page).map_values(
            |p: (Seq<char>, Seq<char>)| query_param(p.0, p.1)),
        split_amp(search_query(api_key, page)).map_values(|p: Seq<char>| key_of(p)) == seq![
            "method"@, "api_key"@, "license"@, "format"@, "nojsoncallback"@, "extras"@, "per_page"@, "page"@],
{
    lemma_search_query_pieces(api_key, page);
    let t = int_text(page);
    let amp = "&"@;
    let p1 = query_param("method"@, FLICKR_QUERY_METHOD@);
    let p2 = query_param("api_key"@, api_key);
    let p3 = query_param("license"@, "4"@);
    let p4 = query_param("format"@, "json"@);
    let p5 = query_param("nojsoncallback"@, "1"@);
    let p6 = query_param("extras"@, "tags,url_o"@);
    let p7 = query_param("per_page"@, "500"@);
    let p8 = query_param("page"@, t);
    let ps = search_params(api_key, page);
    assert(ps[0].0 == "method"@ && ps[0].1 == FLICKR_QUERY_METHOD@);
    assert(ps[1].0 == "api_key"@ && ps[1].1 == api_key);
    assert(ps[2].0 == "license"@ && ps[2].1 == "4"@);
    assert(ps[3].0 == "format"@ && ps[3].1 == "json"@);
    assert(ps[4].0 == "nojsoncallback"@ && ps[4].1 == "1"@);
    assert(ps[5].0 == "extras"@ && ps[5].1 == "tags,url_o"@);
    assert(ps[6].0 == "per_page"@ && ps[6].1 == "500"@);
    assert(ps[7].0 == "page"@ && ps[7].1 == t);
    let x1 = p1;
    let x2 = x1 + amp + p2;
    let x3 = x2 + amp + p3;
    let x4 = x3 + amp + p4;
    let x5 = x4 + amp + p5;
    let x6 = x5 + amp + p6;
    let x7 = x6 + amp + p7;
    let x8 = x7 + amp + p8;
    lemma_split_amp_join(x1, p2);
    lemma_split_amp_join(x2, p3);
    lemma_split_amp_join(x3, p4);
    lemma_split_amp_join(x4, p5);
    lemma_split_amp_join(x5, p6);
    lemma_split_amp_join(x6, p7);
    lemma_split_amp_join(x7, p8);
    assert(search_query(api_key, page) == x8);
    assert(split_amp(x8) =~= seq![p1, p2, p3, p4, p5, p6, p7, p8]);
    assert(search_params(api_key, page).map_values(|p: (Seq<char>, Seq<char>)| query_param(p.0, p.1))
        =~= seq![p1, p2, p3, p4, p5, p6, p7, p8]);
    assert(seq![p1, p2, p3, p4, p5, p6, p7, p8].map_values(|p: Seq<char>| key_of(p)) =~= seq![
        "method"@, "api_key"@, "license"@, "format"@, "nojsoncallback"@, "extras"@, "per_page"@, "page"@]);
}

pub fn make_query_param(key: &str, value: &str) -> (r: String)
    ensures
        r@ == query_param(key@, value@),
{
    let mut param = String::from_str(key);
    param.append("=");
    param.append(value);
    param
}

/// The request for one page of search results.
pub struct FlickrRequestBuilder {
    pub api_key: String,
    pub page: i32,
}

impl FlickrRequestBuilder {
    pub fn new(api_key: String, page: i32) -> (r: FlickrRequestBuilder)
        ensures
            r.api_key == api_key,
            r.page == page,
    {
        FlickrRequestBuilder { api_key, page }
    }

    /// The search URL: the endpoint, the API path and the query of
    /// `build_query`.
    pub fn build_search_url(self) -> (r: Result<url::Url, url::ParseError>)
        requires
            self.api_key@.len() < 0x0800_0000,
        ensures
            r is Ok,
    {
        match self.build_search_url_text() {
            Ok((url, _)) => Ok(url),
            Err(e) => Err(e),
        }
    }

    /// The search URL together with its text.
    pub fn build_search_url_text(self) -> (r: Result<(url::Url, String), url::ParseError>)
        requires
            self.api_key@.len() < 0x0800_0000,
        ensures
            r matches Ok(u) && u.1@ == search_url_text(query_text(search_query(self.api_key@, self.page as int))),
    {
        let ghost key = self.api_key@;
        let ghost page = self.page as int;
        proof {
            lemma_search_query_len(key, page);
            reveal_strlit("https://api.flickr.com/");
            reveal_strlit("/services/rest");
        }
        let query = self.build_query();
        url_with_query(FLICKR_ENDPOINT, FLICKR_PATH, query.as_str())
    }

    pub fn build_query(self) -> (r: String)
        ensures
            r@ == search_query(self.api_key@, self.page as int),
    {
        let mut query = make_query_param("method", FLICKR_QUERY_METHOD);
        query.append("&");
        let p = make_query_param("api_key", self.api_key.as_str());
        query.append(p.as_str());
        query.append("&");
        let p = make_query_param("license", "4");
        query.append(p.as_str());
        query.append("&");
        let p = make_query_param("format", "json");
        query.append(p.as_str());
        query.append("&");
        let p = make_query_param("nojsoncallback", "1");
        query.append(p.as_str());
        query.append("&");
        let p = make_query_param("extras", "tags,url_o");
        query.append(p.as_str());
        query.append("&");
        let p = make_query_param("per_page", "500");
        query.append(p.as_str());
        query.append("&");
        let page = i32_text(self.page);
        let p = make_query_param("page", page.as_str());
        query.append(p.as_str());
        query
    }
}

/// What the literals of a search query hold: the separators are single
/// characters, no key holds `&` or `=`, no fixed value holds `&`, and all of
/// them together are short.
proof fn lemma_query_literals()
    ensures
        "&"@ == seq!['&'],
        "="@ == seq!['='],
        lacks("method"@, '&') && lacks("method"@, '='),
        lacks("api_key"@, '&') && lacks("api_key"@, '='),
        lacks("license"@, '&') && lacks("license"@, '='),
        lacks("format"@, '&') && lacks("format"@, '='),
        lacks("nojsoncallback"@, '&') && lacks("nojsoncallback"@, '='),
        lacks("extras"@, '&') && lacks("extras"@, '='),
        lacks("per_page"@, '&') && lacks("per_page"@, '='),
        lacks("page"@, '&') && lacks("page"@, '='),
        lacks(FLICKR_QUERY_METHOD@, '&'),
        lacks("4"@, '&'),
        lacks("json"@, '&'),
        lacks("1"@, '&'),
        lacks("tags,url_o"@, '&'),
        lacks("500"@, '&'),
        "method"@.len() + FLICKR_QUERY_METHOD@.len() + "api_key"@.len() + "license"@.len() + "4"@.len()
            + "format"@.len() + "json"@.len() + "nojsoncallback"@.len() + "1"@.len() + "extras"@.len()
            + "tags,url_o"@.len() + "per_page"@.len() + "500"@.len() + "page"@.len() < 200,
{
    reveal_strlit("method");
    reveal_strlit("=");
    reveal_strlit("&");
    reveal_strlit("flickr.photos.search");
    reveal_strlit("api_key");
    reveal_strlit("license");
    reveal_strlit("4");
    reveal_strlit("format");
    reveal_strlit("json");
    reveal_strlit("nojsoncallback");
    reveal_strlit("1");
    reveal_strlit("extras");
    reveal_strlit("tags,url_o");
    reveal_strlit("per_page");
    reveal_strlit("500");
    reveal_strlit("page");
    assert("&"@ =~= seq!['&']);
    assert("="@ =~= seq!['=']);
}

/// A search query stays far below the size at which a URL overflows.
proof fn lemma_search_query_len(key: Seq<char>, page: int)
    requires
        key.len() < 0x0800_0000,
        i32::MIN <= page <= i32::MAX,
    ensures
        search_query(key, page).len() < 0x1000_0000,
{
    lemma_query_literals();
    reveal_with_fuel(pow10, 11);
    assert(pow10(10) == 10000000000nat);
    lemma_digits_short(if page < 0 { (-page) as nat } else { page as nat }, 10);
}

/// Where a paginated listing stands: the page to ask for next, whether
/// there is one, and the photos gathered so far.
pub struct ListingView {
    pub next_page: int,
    pub has_next: bool,
    pub photos: Seq<PhotoView>,
    pub failed: Option<ListingError>,
}

/// A listing before its first request: page 0 comes next.
pub open spec fn listing_start() -> ListingView {
    ListingView { next_page: 0, has_next: true, photos: Seq::empty(), failed: None }
}

/// The part of `received` that still fits under the cap when `have` photos
/// are gathered.
pub open spec fn within_cap(have: int, received: Seq<PhotoView>) -> Seq<PhotoView> {
    if received.len() <= MAX_PHOTOS - have {
        received
    } else {
        received.take(MAX_PHOTOS - have)
    }
}

/// A listing after the server answered with page `page` of `pages`,
/// holding `received`: the photos that fit under the cap join the listing,
/// and the page after it comes next if the server has more and the gathered
/// photos are still under the cap.
pub open spec fn listing_step(st: ListingView, page: int, pages: int, received: Seq<PhotoView>) -> ListingView {
    let photos = st.photos + within_cap(st.photos.len() as int, received);
    ListingView {
        next_page: page + 1,
        has_next: page + 1 < pages && photos.len() < MAX_PHOTOS,
        photos,
        failed: st.failed,
    }
}

/// The decisions of a paginated search listing: which page to request next
/// and when to stop. The caller performs each request and hands the page
/// back.
pub struct PageListing {
    next_page: i64,
    has_next: bool,
    photos: Vec<Photo>,
    failed: Option<ListingError>,
}

impl View for PageListing {
    type V = ListingView;

    closed spec fn view(&self) -> ListingView {
        ListingView {
            next_page: self.next_page as int,
            has_next: self.has_next,
            photos: self.photos@.map_values(|p: Photo| p@),
            failed: self.failed,
        }
    }
}

impl PageListing {
    /// A page number that is still to come fits the type of page numbers.
    pub closed spec fn wf(&self) -> bool {
        &&& self.has_next ==> i32::MIN <= self.next_page <= i32::MAX
        &&& self.photos.len() <= MAX_PHOTOS
    }

    pub fn new() -> (r: PageListing)
        ensures
            r@ == listing_start(),
            r.wf(),
    {
        let r = PageListing { next_page: 0, has_next: true, photos: Vec::new(), failed: None };
        proof {
            assert(r@.photos =~= Seq::<PhotoView>::empty());
        }
        r
    }

    /// The page to request next, or `None` once the listing is over.
    pub fn next_request(&self) -> (r: Option<i32>)
        requires
            self.wf(),
        ensures
            self@.has_next ==> r == Some(self@.next_page as i32) && r->0 as int == self@.next_page,
            !self@.has_next ==> r is None,
    {
        if self.has_next {
            Some(self.next_page as i32)
        } else {
            None
        }
    }

    /// Takes in one page of the response: its photos join the listing, and
    /// the listing goes on to the following page only while the server
    /// reports more pages and fewer than `MAX_PHOTOS` photos are gathered.
    pub fn on_page(&mut self, response: &Photos)
        requires
            old(self).wf(),
        ensures
            final(self).wf(),
            final(self)@.photos.len() <= MAX_PHOTOS,
            final(self)@ == listing_step(old(self)@, response.page as int, response.pages as int,
                response.photo@.map_values(|r: FlickrPhoto| photo_of(r))),
            final(self)@.photos.len() >= MAX_PHOTOS ==> !final(self)@.has_next,
    {
        let ghost before = self@.photos;
        let ghost failed0 = self.failed;
        let ghost received = response.photo@.map_values(|r: FlickrPhoto| photo_of(r));
        let mut i: usize = 0;
        while i < response.photo.len() && self.photos.len() < MAX_PHOTOS
            invariant
                i <= response.photo@.len(),
                before.len() <= MAX_PHOTOS,
                self.failed == failed0,
                self.photos.len() == before.len() + i,
                self.photos.len() <= MAX_PHOTOS,
                received == response.photo@.map_values(|r: FlickrPhoto| photo_of(r)),
                self@.photos =~= before + received.take(i as int),
            decreases response.photo.len() - i,
        {
            let photo = record_to_photo(&response.photo[i]);
            let ghost prev = self.photos@;
            self.photos.push(photo);
            proof {
                assert(self.photos@.map_values(|p: Photo| p@) =~= prev.map_values(|p: Photo| p@).push(received[i as int]));
                assert(received.take(i + 1) =~= received.take(i as int).push(received[i as int]));
            }
            i = i + 1;
        }
        proof {
            if i == received.len() {
                assert(received.take(i as int) =~= received);
            }
            assert(within_cap(before.len() as int, received) =~= received.take(i as int));
        }
        let next = response.page as i64 + 1;
        self.next_page = next;
        self.has_next = next < response.pages as i64 && self.photos.len() < MAX_PHOTOS;
    }

    /// Takes in a page that could not be had: the listing ends, and fails
    /// with the first such error.
    pub fn on_failure(&mut self, error: ListingError)
        requires
            old(self).wf(),
        ensures
            final(self).wf(),
            final(self)@ == (ListingView {
                has_next: false,
                failed: if old(self)@.failed is Some { old(self)@.failed } else { Some(error) },
                ..old(self)@
            }),
    {
        self.has_next = false;
        if self.failed.is_none() {
            self.failed = Some(error);
        }
    }

    /// The photos gathered, in the order the pages delivered them, or the
    /// error of a page that could not be had: one failed page fails the
    /// whole listing.
    pub fn finish(self) -> (r: Result<Vec<Photo>, ListingError>)
        ensures
            self@.failed matches Some(e) ==> r == Err::<Vec<Photo>, ListingError>(e),
            self@.failed is None ==> (r matches Ok(v) && v@.map_values(|p: Photo| p@) == self@.photos),
    {
        match self.failed {
            Some(e) => Err(e),
            None => Ok(self.photos),
        }
    }
}

/// How many photos the first `k` pages of `batches` hold.
pub open spec fn photos_in_pages(batches: Seq<Seq<PhotoView>>, k: nat) -> int
    decreases k,
{
    if k == 0 {
        0
    } else {
        photos_in_pages(batches, (k - 1) as nat) + batches[k - 1].len()
    }
}

/// The listing after `k` answers from a server that reports `pages` pages
/// and answers each request for page `p` with page `p`, holding `batches[p]`.
pub open spec fn served_listing(pages: int, batches: Seq<Seq<PhotoView>>, k: nat) -> ListingView
    decreases k,
{
    if k == 0 {
        listing_start()
    } else {
        let st = served_listing(pages, batches, (k - 1) as nat);
        listing_step(st, st.next_page, pages, batches[st.next_page])
    }
}

/// While the cap is not reached before page `k`, the listing's `k`-th
/// request is for page `k`, and it holds the photos of the pages before.
proof fn lemma_served_prefix(pages: int, batches: Seq<Seq<PhotoView>>, k: nat)
    requires
        k < pages,
        batches.len() == pages,
        forall|j: nat| j < k ==> #[trigger] photos_in_pages(batches, j + 1) < MAX_PHOTOS,
    ensures
        served_listing(pages, batches, k).has_next,
        served_listing(pages, batches, k).next_page == k,
        served_listing(pages, batches, k).photos.len() == photos_in_pages(batches, k),
    decreases k,
{
    if k > 0 {
        let j = (k - 1) as nat;
        lemma_served_prefix(pages, batches, j);
        let st = served_listing(pages, batches, j);
        assert(photos_in_pages(batches, j + 1) < MAX_PHOTOS);
        assert(within_cap(st.photos.len() as int, batches[j as int]) == batches[j as int]);
        assert((st.photos + batches[j as int]).len() == st.photos.len() + batches[j as int].len());
    }
}

/// Against a server that reports `pages` pages, while the cap is not reached
/// before the last page the listing requests pages 0, 1, ..., `pages - 1`,
/// each once and in this order, and stops after exactly `pages` requests.
pub proof fn lemma_listing_requests_each_page(pages: int, batches: Seq<Seq<PhotoView>>)
    requires
        1 <= pages,
        batches.len() == pages,
        forall|j: nat| j < pages - 1 ==> #[trigger] photos_in_pages(batches, j + 1) < MAX_PHOTOS,
    ensures
        forall|k: nat| k < pages ==> (#[trigger] served_listing(pages, batches, k)).has_next
            && served_listing(pages, batches, k).next_page == k,
        !served_listing(pages, batches, pages as nat).has_next,
{
    assert forall|k: nat| k < pages implies (#[trigger] served_listing(pages, batches, k)).has_next
        && served_listing(pages, batches, k).next_page == k by {
        lemma_served_prefix(pages, batches, k);
    }
    lemma_served_prefix(pages, batches, (pages - 1) as nat);
}

/// Once the photos of pages 0 to `last` reach the cap, the listing has
/// requested exactly pages 0 to `last` and asks for no more, however many
/// pages the server reports; it then holds exactly `MAX_PHOTOS` photos.
pub proof fn lemma_listing_stops_at_cap(pages: int, batches: Seq<Seq<PhotoView>>, last: nat)
    requires
        last < pages,
        batches.len() == pages,
        forall|j: nat| j < last ==> #[trigger] photos_in_pages(batches, j + 1) < MAX_PHOTOS,
        photos_in_pages(batches, last + 1) >= MAX_PHOTOS,
    ensures
        forall|k: nat| k <= last ==> (#[trigger] served_listing(pages, batches, k)).has_next
            && served_listing(pages, batches, k).next_page == k,
        !served_listing(pages, batches, last + 1).has_next,
        served_listing(pages, batches, last + 1).photos.len() == MAX_PHOTOS,
{
    assert forall|k: nat| k <= last implies (#[trigger] served_listing(pages, batches, k)).has_next
        && served_listing(pages, batches, k).next_page == k by {
        lemma_served_prefix(pages, batches, k);
    }
    lemma_served_prefix(pages, batches, last);
    let st = served_listing(pages, batches, last);
    assert(served_listing(pages, batches, last + 1) == listing_step(st, last as int, pages, batches[last as int]));
    assert(st.photos.len() + batches[last as int].len() >= MAX_PHOTOS);
}

} // verus!
