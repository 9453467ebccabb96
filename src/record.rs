//! Records: fetched illustration details checked and turned into typed values.
use vstd::prelude::*;

verus! {

/// Most pages of one record that are delivered; later pages are dropped.
pub const MAX_PAGES: usize = 10;

/// Why fetched details could not become a record.
#[derive(Clone, Debug, PartialEq, Eq)]
pub enum RecordError {
    /// A numeric field holds `text`, which is not a `u32` in decimal.
    InvalidNumber { text: String },
    /// A single-image record has no image URL (the illustration is login-only).
    MissingUrl,
    /// A page names `page` as its index, and no page size has that index.
    MissingPageSize { page: u32 },
}

pub open spec fn is_digit(c: char) -> bool {
    '0' <= c <= '9'
}

/// The value of a sequence of decimal digits.
pub open spec fn digits_value(s: Seq<char>) -> int
    decreases s.len(),
{
    if s.len() == 0 {
        0
    } else {
        digits_value(s.drop_last()) * 10 + (s.last() as int - '0' as int)
    }
}

/// `s` without one leading `+`, if it has one.
pub open spec fn unsigned_digits(s: Seq<char>) -> Seq<char> {
    if s.len() > 0 && s[0] == '+' {
        s.drop_first()
    } else {
        s
    }
}

/// `s` is a `u32` written in decimal: an optional `+`, then at least one digit.
pub open spec fn parses_as_u32(s: Seq<char>) -> bool {
    let d = unsigned_digits(s);
    &&& d.len() > 0
    &&& forall|i: int| 0 <= i < d.len() ==> is_digit(#[trigger] d[i])
    &&& digits_value(d) <= u32::MAX
}

/// The value that `s` denotes when `parses_as_u32(s)`.
pub open spec fn parsed_value(s: Seq<char>) -> int {
    digits_value(unsigned_digits(s))
}

proof fn lemma_digits_value_prefix(s: Seq<char>, k: int)
    requires
        0 <= k <= s.len(),
        forall|i: int| 0 <= i < s.len() ==> is_digit(#[trigger] s[i]),
    ensures
        0 <= digits_value(s.take(k)) <= digits_value(s),
    decreases s.len(),
{
    if s.len() > 0 {
        if k == s.len() {
            assert(s.take(k) =~= s);
            lemma_digits_value_prefix(s.drop_last(), k - 1);
            assert(s.drop_last().take(k - 1) =~= s.drop_last());
        } else {
            lemma_digits_value_prefix(s.drop_last(), k);
            assert(s.drop_last().take(k) =~= s.take(k));
        }
    }
}

fn invalid_number(text: &str) -> (e: RecordError)
    ensures
        e is InvalidNumber && e->InvalidNumber_text@ == text@,
{
    RecordError::InvalidNumber { text: text.to_owned() }
}

/// Reads `text` as a `u32` in decimal, as a numeric field of the details is
/// written.
pub fn parse_u32(text: &str) -> (r: Result<u32, RecordError>)
    ensures
        r is Ok <==> parses_as_u32(text@),
        r matches Ok(v) ==> v == parsed_value(text@),
        r matches Err(e) ==> e is InvalidNumber && e->InvalidNumber_text@ == text@,
{
    let n = text.unicode_len();
    let mut i: usize = 0;
    if n > 0 && text.get_char(0) == '+' {
        i = 1;
    }
    let start = i;
    let ghost d = unsigned_digits(text@);
    assert(d =~= text@.subrange(start as int, n as int));
    if start == n {
        return Err(invalid_number(text));
    }
    let mut value: u64 = 0;
    assert(d.take(0) =~= Seq::<char>::empty());
    while i < n
        invariant
            start <= i <= n,
            n == text@.len(),
            start < n,
            d == unsigned_digits(text@),
            d =~= text@.subrange(start as int, n as int),
            forall|j: int| 0 <= j < i - start ==> is_digit(#[trigger] d[j]),
            value == digits_value(d.take(i - start)),
            value <= u32::MAX,
        decreases n - i,
    {
        let c = text.get_char(i);
        let k = i - start;
        assert(d[k as int] == c);
        if !('0' <= c && c <= '9') {
            return Err(invalid_number(text));
        }
        let next: u64 = value * 10 + (c as u64 - '0' as u64);
        assert(d.take(k + 1).drop_last() =~= d.take(k as int));
        assert(next == digits_value(d.take(k + 1)));
        if next > u32::MAX as u64 {
            proof {
                if parses_as_u32(text@) {
                    lemma_digits_value_prefix(d, k + 1);
                }
            }
            return Err(invalid_number(text));
        }
        value = next;
        i = i + 1;
    }
    assert(d.take(n - start) =~= d);
    Ok(value as u32)
}

/// One page of a multi-page illustration as fetched: its index among the page
/// sizes and its image URL.
#[derive(Clone, Debug, PartialEq, Eq)]
pub struct RawPage {
    pub page: u32,
    pub url: String,
}

/// The size of one page as fetched, its numbers still in text.
#[derive(Clone, Debug, PartialEq, Eq)]
pub struct RawPageSize {
    pub width: String,
    pub height: String,
}

/// Illustration details as fetched, before any field is checked.
#[derive(Clone, Debug, PartialEq, Eq)]
pub struct RawDetails {
    pub id: String,
    pub title: String,
    pub width: String,
    pub height: String,
    pub tags: Vec<String>,
    pub url: Option<String>,
    pub page_sizes: Option<Vec<RawPageSize>>,
    pub pages: Option<Vec<RawPage>>,
    pub canonical: String,
    pub author_id: String,
    pub author_name: String,
}

/// One page of a multi-page record, ready to download.
#[derive(Clone, Debug, PartialEq, Eq)]
pub struct Page {
    pub index: u32,
    pub url: String,
    pub width: u32,
    pub height: u32,
}

/// The image or images of a record.
#[derive(Clone, Debug, PartialEq, Eq)]
pub enum Images {
    Single { url: String, width: u32, height: u32 },
    /// At most `MAX_PAGES` pages in order, out of `total` that the
    /// illustration has.
    Paged { pages: Vec<Page>, total: usize },
}

/// A resolved illustration.
#[derive(Clone, Debug, PartialEq, Eq)]
pub struct Record {
    pub id: String,
    pub title: String,
    pub author_id: String,
    pub author_name: String,
    pub tags: Vec<String>,
    /// The illustration's page, sent as the referer when downloading.
    pub referer: String,
    pub images: Images,
}

/// The page that `raw` becomes, or why it cannot: its index must name a page
/// size, whose width and then height must parse.
pub open spec fn page_result(raw: RawPage, sizes: Seq<RawPageSize>) -> Result<
    Page,
    RecordError,
> {
    if raw.page >= sizes.len() {
        Err(RecordError::MissingPageSize { page: raw.page })
    } else if !parses_as_u32(sizes[raw.page as int].width@) {
        Err(RecordError::InvalidNumber { text: sizes[raw.page as int].width })
    } else if !parses_as_u32(sizes[raw.page as int].height@) {
        Err(RecordError::InvalidNumber { text: sizes[raw.page as int].height })
    } else {
        Ok(
            Page {
                index: raw.page,
                url: raw.url,
                width: parsed_value(sizes[raw.page as int].width@) as u32,
                height: parsed_value(sizes[raw.page as int].height@) as u32,
            },
        )
    }
}

/// The pages that `raws` become, in order, or the error of the first that
/// cannot.
pub open spec fn pages_result(raws: Seq<RawPage>, sizes: Seq<RawPageSize>) -> Result<
    Seq<Page>,
    RecordError,
>
    decreases raws.len(),
{
    if raws.len() == 0 {
        Ok(Seq::empty())
    } else {
        match pages_result(raws.drop_last(), sizes) {
            Err(e) => Err(e),
            Ok(done) => match page_result(raws.last(), sizes) {
                Ok(p) => Ok(done.push(p)),
                Err(e) => Err(e),
            },
        }
    }
}

/// The first `MAX_PAGES` of `raws`, or all of them when there are fewer.
pub open spec fn delivered_pages(raws: Seq<RawPage>) -> Seq<RawPage> {
    if raws.len() <= MAX_PAGES {
        raws
    } else {
        raws.take(MAX_PAGES as int)
    }
}

fn resolve_page(raw: &RawPage, sizes: &Vec<RawPageSize>) -> (r: Result<Page, RecordError>)
    ensures
        r == page_result(*raw, sizes@),
{
    if raw.page as usize >= sizes.len() {
        return Err(RecordError::MissingPageSize { page: raw.page });
    }
    let size = &sizes[raw.page as usize];
    let width = match parse_u32(size.width.as_str()) {
        Ok(v) => v,
        Err(_) => {
            return Err(RecordError::InvalidNumber { text: size.width.clone() });
        },
    };
    let height = match parse_u32(size.height.as_str()) {
        Ok(v) => v,
        Err(_) => {
            return Err(RecordError::InvalidNumber { text: size.height.clone() });
        },
    };
    Ok(Page { index: raw.page, url: raw.url.clone(), width, height })
}

/// The delivered pages of a multi-page illustration with their sizes.
pub fn resolve_pages(raws: &Vec<RawPage>, sizes: &Vec<RawPageSize>) -> (r: Result<
    Vec<Page>,
    RecordError,
>)
    ensures
        r is Ok <==> pages_result(delivered_pages(raws@), sizes@) is Ok,
        r matches Ok(v) ==> v@ == pages_result(delivered_pages(raws@), sizes@)->Ok_0,
        r matches Err(e) ==> e == pages_result(delivered_pages(raws@), sizes@)->Err_0,
{
    let ghost todo = delivered_pages(raws@);
    let n: usize = if raws.len() <= MAX_PAGES {
        raws.len()
    } else {
        MAX_PAGES
    };
    let mut out: Vec<Page> = Vec::new();
    let mut i: usize = 0;
    assert(todo.take(0) =~= Seq::<RawPage>::empty());
    while i < n
        invariant
            n == todo.len(),
            todo == delivered_pages(raws@),
            i <= n,
            forall|j: int| 0 <= j < n ==> todo[j] == raws@[j],
            pages_result(todo.take(i as int), sizes@) == Ok::<Seq<Page>, RecordError>(out@),
        decreases n - i,
    {
        assert(todo.take(i + 1).drop_last() =~= todo.take(i as int));
        let page = resolve_page(&raws[i], sizes);
        match page {
            Ok(p) => {
                out.push(p);
            },
            Err(e) => {
                proof {
                    lemma_pages_error_stays(todo, sizes@, (i + 1) as int);
                }
                return Err(e);
            },
        }
        i = i + 1;
    }
    assert(todo.take(n as int) =~= todo);
    Ok(out)
}

proof fn lemma_pages_error_stays(raws: Seq<RawPage>, sizes: Seq<RawPageSize>, k: int)
    requires
        0 <= k <= raws.len(),
        pages_result(raws.take(k), sizes) is Err,
    ensures
        pages_result(raws, sizes) == pages_result(raws.take(k), sizes),
    decreases raws.len() - k,
{
    if k < raws.len() {
        assert(raws.take(k + 1).drop_last() =~= raws.take(k));
        lemma_pages_error_stays(raws, sizes, k + 1);
    } else {
        assert(raws.take(k) =~= raws);
    }
}

/// One image of a record to download and fit.
#[derive(Clone, Debug, PartialEq, Eq)]
pub struct Download {
    pub url: String,
    pub width: u32,
    pub height: u32,
    /// The page of a multi-page record; none for a single image.
    pub page_index: Option<u32>,
}

/// The download of a multi-page record's `page`.
pub open spec fn page_download(page: Page) -> Download {
    Download { url: page.url, width: page.width, height: page.height, page_index: Some(page.index) }
}

impl Record {
    /// The images of the record to download, in delivery order.
    pub fn downloads(&self) -> (r: Vec<Download>)
        ensures
            self.images matches Images::Single { url, width, height } ==> r@ == seq![
                Download { url, width, height, page_index: None },
            ],
            self.images matches Images::Paged { pages, .. } ==> r@ == pages@.map_values(
                |p: Page| page_download(p),
            ),
    {
        match &self.images {
            Images::Single { url, width, height } => {
                let mut out: Vec<Download> = Vec::new();
                out.push(Download { url: url.clone(), width: *width, height: *height, page_index: None });
                assert(out@ =~= seq![Download { url: *url, width: *width, height: *height, page_index: None }]);
                out
            },
            Images::Paged { pages, .. } => {
                let mut out: Vec<Download> = Vec::new();
                let mut i: usize = 0;
                while i < pages.len()
                    invariant
                        i <= pages@.len(),
                        out@ =~= pages@.take(i as int).map_values(|p: Page| page_download(p)),
                    decreases pages@.len() - i,
                {
                    let p = &pages[i];
                    out.push(
                        Download {
                            url: p.url.clone(),
                            width: p.width,
                            height: p.height,
                            page_index: Some(p.index),
                        },
                    );
                    assert(pages@.take(i + 1).map_values(|p: Page| page_download(p)) =~= pages@.take(
                        i as int,
                    ).map_values(|p: Page| page_download(p)).push(page_download(pages@[i as int])));
                    i = i + 1;
                }
                assert(pages@.take(pages@.len() as int) =~= pages@);
                out
            },
        }
    }

    /// Checks fetched details and makes a record of them. Details with both
    /// pages and page sizes are a multi-page record of their first
    /// `MAX_PAGES` pages; any others are a single image, which needs a URL
    /// and a width and height that parse.
    pub fn from_details(details: RawDetails) -> (r: Result<Record, RecordError>)
        ensures
            r matches Ok(rec) ==> {
                &&& rec.id == details.id
                &&& rec.title == details.title
                &&& rec.author_id == details.author_id
                &&& rec.author_name == details.author_name
                &&& rec.tags@ == details.tags@
                &&& rec.referer == details.canonical
            },
            details.pages is Some && details.page_sizes is Some ==> {
                let res = pages_result(
                    delivered_pages(details.pages->0@),
                    details.page_sizes->0@,
                );
                &&& r is Ok <==> res is Ok
                &&& r matches Ok(rec) ==> rec.images is Paged && rec.images->Paged_pages@
                    == res->Ok_0 && rec.images->Paged_total == details.pages->0@.len()
                &&& r matches Err(e) ==> e == res->Err_0
            },
            !(details.pages is Some && details.page_sizes is Some) ==> {
                &&& details.url is None ==> r == Err::<Record, RecordError>(
                    RecordError::MissingUrl,
                )
                &&& details.url is Some ==> (r is Ok <==> parses_as_u32(details.width@)
                    && parses_as_u32(details.height@))
                &&& r matches Ok(rec) ==> rec.images == (Images::Single {
                    url: details.url->0,
                    width: parsed_value(details.width@) as u32,
                    height: parsed_value(details.height@) as u32,
                })
                &&& details.url is Some && !parses_as_u32(details.width@) ==> r
                    == Err::<Record, RecordError>(
                    RecordError::InvalidNumber { text: details.width },
                )
                &&& details.url is Some && parses_as_u32(details.width@) && !parses_as_u32(
                    details.height@,
                ) ==> r == Err::<Record, RecordError>(
                    RecordError::InvalidNumber { text: details.height },
                )
            },
    {
        let images = match (&details.pages, &details.page_sizes) {
            (Some(pages), Some(sizes)) => {
                let resolved = match resolve_pages(pages, sizes) {
                    Ok(v) => v,
                    Err(e) => {
                        return Err(e);
                    },
                };
                Images::Paged { pages: resolved, total: pages.len() }
            },
            _ => {
                let url = match &details.url {
                    Some(u) => u.clone(),
                    None => {
                        return Err(RecordError::MissingUrl);
                    },
                };
                let width = match parse_u32(details.width.as_str()) {
                    Ok(v) => v,
                    Err(_) => {
                        return Err(RecordError::InvalidNumber { text: details.width });
                    },
                };
                let height = match parse_u32(details.height.as_str()) {
                    Ok(v) => v,
                    Err(_) => {
                        return Err(RecordError::InvalidNumber { text: details.height });
                    },
                };
                Images::Single { url, width, height }
            },
        };
        Ok(
            Record {
                id: details.id,
                title: details.title,
                author_id: details.author_id,
                author_name: details.author_name,
                tags: details.tags,
                referer: details.canonical,
                images,
            },
        )
    }
}

} // verus!
