//! What the GitHub client computes before and between its requests: the
//! request URLs, the authorization header, and when to stop paging.
use vstd::prelude::*;

use reqwest::header::{HeaderValue, InvalidHeaderValue};
use vstd::utf8::encode_utf8;

use crate::text::{decimal, decimal_string};

verus! {

#[verifier::external_type_specification]
#[verifier::external_body]
pub struct ExHeaderValue(reqwest::header::HeaderValue);

#[verifier::external_type_specification]
#[verifier::external_body]
pub struct ExInvalidHeaderValue(reqwest::header::InvalidHeaderValue);

/// Whether a byte may stand in an HTTP header value: visible ASCII, space,
/// tab, or any byte from 128 up; not the other control bytes nor DEL.
pub open spec fn header_byte_allowed(b: u8) -> bool {
    (b >= 32 && b != 127) || b == 9
}

/// Whether every byte of `bytes` may stand in an HTTP header value.
pub open spec fn valid_header_value(bytes: Seq<u8>) -> bool {
    forall|i: int| 0 <= i < bytes.len() ==> header_byte_allowed(#[trigger] bytes[i])
}

/// The header value `HeaderValue::from_str` makes of a text with UTF-8
/// encoding `bytes`: one holding exactly those bytes, not marked sensitive.
pub uninterp spec fn header_value_of(bytes: Seq<u8>) -> HeaderValue;

/// Calls `HeaderValue::from_str`, which accepts a text exactly when every byte
/// of its UTF-8 encoding may stand in a header value, and then returns the
/// value holding those bytes and no others.
#[verifier::external_body]
fn header_value_from_str(s: &str) -> (r: Result<HeaderValue, InvalidHeaderValue>)
    ensures
        r is Ok <==> valid_header_value(encode_utf8(s@)),
        r matches Ok(v) ==> v == header_value_of(encode_utf8(s@)),
        r matches Ok(v) ==> forall|b: Seq<u8>| v == #[trigger] header_value_of(b) ==> b == encode_utf8(
            s@,
        ),
{
    HeaderValue::from_str(s)
}

/// The root of GitHub's REST API.
pub const BASE_URL: &'static str = "https://api.github.com";

/// Whether a byte is left as it is by URL encoding: an ASCII letter or digit,
/// or one of `-`, `.`, `_`, `~`.
pub open spec fn url_unreserved(b: u8) -> bool {
    (48 <= b <= 57) || (65 <= b <= 90) || (97 <= b <= 122) || b == 45 || b == 46 || b == 95
        || b == 126
}

/// The upper-case hexadecimal digit of a value below 16.
pub open spec fn hex_upper(d: u8) -> char
    recommends
        d < 16,
{
    if d < 10 {
        (48 + d) as char
    } else {
        (55 + d) as char
    }
}

/// URL encoding of one byte: itself when unreserved, else `%` and its two
/// upper-case hexadecimal digits.
pub open spec fn url_encode_byte(b: u8) -> Seq<char> {
    if url_unreserved(b) {
        seq![b as char]
    } else {
        seq!['%', hex_upper(b / 16), hex_upper(b % 16)]
    }
}

/// URL encoding of a byte string, byte by byte.
pub open spec fn url_encode(bytes: Seq<u8>) -> Seq<char>
    decreases bytes.len(),
{
    if bytes.len() == 0 {
        seq![]
    } else {
        url_encode_byte(bytes[0]) + url_encode(bytes.drop_first())
    }
}

/// Calls `urlencoding::encode`, which percent-encodes every byte of the UTF-8
/// encoding of `s` except ASCII letters, digits and `-`, `.`, `_`, `~`, using
/// upper-case hexadecimal digits.
#[verifier::external_body]
fn encode_path_segment(s: &str) -> (r: String)
    ensures
        r@ == url_encode(encode_utf8(s@)),
{
    urlencoding::encode(s).into_owned()
}

/// The API URL of a repository: `https://api.github.com/repos/<owner>/<repo>`.
pub open spec fn repo_api(owner: Seq<char>, repo: Seq<char>) -> Seq<char> {
    BASE_URL@ + "/repos/"@ + owner + "/"@ + repo
}

fn repo_api_url(owner: &str, repo: &str) -> (r: String)
    ensures
        r@ == repo_api(owner@, repo@),
{
    let mut r = String::from_str(BASE_URL);
    r.append("/repos/");
    r.append(owner);
    r.append("/");
    r.append(repo);
    r
}

/// The URL of one page (of up to 100) of a repository's labels.
pub fn labels_page_url(owner: &str, repo: &str, page: u32) -> (r: String)
    ensures
        r@ == repo_api(owner@, repo@) + "/labels?per_page=100&page="@ + decimal(page as nat),
{
    let mut r = repo_api_url(owner, repo);
    r.append("/labels?per_page=100&page=");
    let p = decimal_string(page as u64);
    r.append(p.as_str());
    r
}

/// The URL to which a new label is posted.
pub fn labels_url(owner: &str, repo: &str) -> (r: String)
    ensures
        r@ == repo_api(owner@, repo@) + "/labels"@,
{
    let mut r = repo_api_url(owner, repo);
    r.append("/labels");
    r
}

/// The URL of the label called `name`, the name URL-encoded.
pub fn label_url(owner: &str, repo: &str, name: &str) -> (r: String)
    ensures
        r@ == repo_api(owner@, repo@) + "/labels/"@ + url_encode(encode_utf8(name@)),
{
    let mut r = repo_api_url(owner, repo);
    r.append("/labels/");
    let encoded = encode_path_segment(name);
    r.append(encoded.as_str());
    r
}

/// The URL of one page (of up to 100) of a repository's milestones, open and
/// closed.
pub fn milestones_page_url(owner: &str, repo: &str, page: u32) -> (r: String)
    ensures
        r@ == repo_api(owner@, repo@) + "/milestones?state=all&per_page=100&page="@ + decimal(
            page as nat,
        ),
{
    let mut r = repo_api_url(owner, repo);
    r.append("/milestones?state=all&per_page=100&page=");
    let p = decimal_string(page as u64);
    r.append(p.as_str());
    r
}

/// The URL to which a new milestone is posted.
pub fn milestones_url(owner: &str, repo: &str) -> (r: String)
    ensures
        r@ == repo_api(owner@, repo@) + "/milestones"@,
{
    let mut r = repo_api_url(owner, repo);
    r.append("/milestones");
    r
}

/// The URL of the milestone with number `number`.
pub fn milestone_url(owner: &str, repo: &str, number: u64) -> (r: String)
    ensures
        r@ == repo_api(owner@, repo@) + "/milestones/"@ + decimal(number as nat),
{
    let mut r = repo_api_url(owner, repo);
    r.append("/milestones/");
    let n = decimal_string(number);
    r.append(n.as_str());
    r
}

/// The token cannot stand in an HTTP header.
#[derive(Debug)]
pub struct InvalidToken;

impl InvalidToken {
    /// The message reported for this error; it holds nothing of the token.
    pub fn message(&self) -> (m: String)
        ensures
            m@ == "Invalid token format"@,
    {
        String::from_str("Invalid token format")
    }
}

/// The authorization text for a token: `Bearer <token>`.
pub fn bearer_text(token: &str) -> (r: String)
    ensures
        r@ == "Bearer "@ + token@,
{
    let mut r = String::from_str("Bearer ");
    r.append(token);
    r
}

/// The `Authorization` header value for a token, holding `Bearer <token>`, or
/// [`InvalidToken`] when that text holds a byte no header value may hold.
pub fn authorization_header(token: &str) -> (r: Result<HeaderValue, InvalidToken>)
    ensures
        r is Ok <==> valid_header_value(encode_utf8("Bearer "@ + token@)),
        r matches Ok(v) ==> v == header_value_of(encode_utf8("Bearer "@ + token@)),
        r matches Ok(v) ==> forall|t: Seq<char>|
            v == #[trigger] header_value_of(encode_utf8("Bearer "@ + t)) ==> t == token@,
{
    let text = bearer_text(token);
    proof {
        assert forall|t: Seq<char>|
            #[trigger] encode_utf8("Bearer "@ + t) == encode_utf8("Bearer "@ + token@) implies t
                == token@ by {
            lemma_bearer_bytes_injective(t, token@);
        }
    }
    match header_value_from_str(text.as_str()) {
        Ok(v) => Ok(v),
        Err(_) => Err(InvalidToken),
    }
}

/// Where a paged listing stands: the next page to fetch (pages count from 1),
/// what the pages so far held, and whether an empty page has ended it.
pub struct PageCursor<T> {
    page: u32,
    items: Vec<T>,
    finished: bool,
}

impl<T> PageCursor<T> {
    /// The page to fetch next.
    pub closed spec fn current_page(&self) -> u32 {
        self.page
    }

    /// The items of the pages received so far, in order.
    pub closed spec fn collected(&self) -> Seq<T> {
        self.items@
    }

    /// Whether an empty page has ended the listing.
    pub closed spec fn done(&self) -> bool {
        self.finished
    }

    /// A listing that starts at page 1 with nothing collected.
    pub fn new() -> (c: Self)
        ensures
            c.current_page() == 1,
            c.collected() == Seq::<T>::empty(),
            !c.done(),
    {
        PageCursor { page: 1, items: Vec::new(), finished: false }
    }

    /// The page to fetch next.
    pub fn next_page(&self) -> (p: u32)
        ensures
            p == self.current_page(),
    {
        self.page
    }

    /// Whether the listing has ended.
    pub fn is_finished(&self) -> (b: bool)
        ensures
            b == self.done(),
    {
        self.finished
    }

    /// Takes in the items of the page just fetched. An empty page ends the
    /// listing; otherwise its items are kept and the next page is the one
    /// after it. Returns whether the listing has ended.
    pub fn receive(&mut self, batch: Vec<T>) -> (finished: bool)
        requires
            !old(self).done(),
            batch@.len() > 0 ==> old(self).current_page() < u32::MAX,
        ensures
            finished == final(self).done(),
            finished == (batch@.len() == 0),
            finished ==> final(self).collected() == old(self).collected()
                && final(self).current_page() == old(self).current_page(),
            !finished ==> final(self).collected() == old(self).collected() + batch@
                && final(self).current_page() == old(self).current_page() + 1,
    {
        if batch.len() == 0 {
            self.finished = true;
            true
        } else {
            let mut batch = batch;
            self.items.append(&mut batch);
            self.page = self.page + 1;
            false
        }
    }

    /// The items of all pages received, in order.
    pub fn into_items(self) -> (v: Vec<T>)
        ensures
            v@ == self.collected(),
    {
        self.items
    }
}

/// The UTF-8 encoding of a concatenation is the concatenation of the encodings.
pub proof fn lemma_encode_utf8_concat(a: Seq<char>, b: Seq<char>)
    ensures
        encode_utf8(a + b) == encode_utf8(a) + encode_utf8(b),
    decreases a.len(),
{
    if a.len() == 0 {
        assert(a + b =~= b);
    } else {
        assert((a + b).drop_first() =~= a.drop_first() + b);
        assert((a + b)[0] == a[0]);
        lemma_encode_utf8_concat(a.drop_first(), b);
        assert(encode_utf8(a + b) =~= encode_utf8(a) + encode_utf8(b));
    }
}

/// The `Authorization` text of a token is the bytes `Bearer ` followed by the
/// token's UTF-8 bytes, unchanged.
pub proof fn lemma_bearer_bytes(token: Seq<char>)
    ensures
        encode_utf8("Bearer "@ + token) == seq![66u8, 101u8, 97u8, 114u8, 101u8, 114u8, 32u8]
            + encode_utf8(token),
{
    reveal_strlit("Bearer ");
    let prefix = "Bearer "@;
    lemma_encode_utf8_concat(prefix, token);
    vstd::utf8::is_ascii_chars_encode_utf8(prefix);
    assert(encode_utf8(prefix) =~= seq![66u8, 101u8, 97u8, 114u8, 101u8, 114u8, 32u8]) by {
        assert(encode_utf8(prefix)[0] == prefix[0] as u8);
        assert(encode_utf8(prefix)[1] == prefix[1] as u8);
        assert(encode_utf8(prefix)[2] == prefix[2] as u8);
        assert(encode_utf8(prefix)[3] == prefix[3] as u8);
        assert(encode_utf8(prefix)[4] == prefix[4] as u8);
        assert(encode_utf8(prefix)[5] == prefix[5] as u8);
        assert(encode_utf8(prefix)[6] == prefix[6] as u8);
    }
}

/// Different tokens give different `Authorization` texts: the text determines
/// the token.
pub proof fn lemma_bearer_bytes_injective(t1: Seq<char>, t2: Seq<char>)
    ensures
        encode_utf8("Bearer "@ + t1) == encode_utf8("Bearer "@ + t2) ==> t1 == t2,
{
    lemma_bearer_bytes(t1);
    lemma_bearer_bytes(t2);
    if encode_utf8("Bearer "@ + t1) == encode_utf8("Bearer "@ + t2) {
        let p = seq![66u8, 101u8, 97u8, 114u8, 101u8, 114u8, 32u8];
        assert((p + encode_utf8(t1)).skip(7) =~= encode_utf8(t1));
        assert((p + encode_utf8(t2)).skip(7) =~= encode_utf8(t2));
        vstd::utf8::encode_utf8_decode_utf8(t1);
        vstd::utf8::encode_utf8_decode_utf8(t2);
    }
}

} // verus!
