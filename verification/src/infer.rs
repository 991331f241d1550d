//! The icon inference engine: candidate extraction, URL resolution,
//! download orchestration, decoding and selection.
//!
//! Given a page URL the engine fetches the page, collects every `link`
//! element whose `rel` mentions "icon" and that carries an `href`, resolves
//! each href against the page URL, downloads and decodes each candidate, and
//! returns the icon with the largest pixel area. A failure of one candidate
//! never fails the call; only three errors cross the engine boundary: the
//! page fetch failed, no candidates were found, or none decoded.

use crate::error::{Error, ParseError};
use crate::text::{
    contains_seq, count_char, count_matches, digits_val, find_char, parse_u32, parses_to_u32,
    spec_index_of, starts_with_seq, str_contains, str_starts_with, substring, unsigned_part,
};
use vstd::prelude::*;

verus! {

/// The `rel` and `href` attribute values of one `link` element.
pub type LinkAttrs = (Option<Seq<char>>, Option<Seq<char>>);

/// Downloader performs network requests: one GET, returning the response
/// body or a failure message. Implementations must be safe to call from
/// independent tasks; the engine itself never retries.
pub trait Downloader {
    fn get(&self, url: &str) -> Result<Vec<u8>, String>;
}

/// Pixel dimensions of a decoded image, the ranking key for selection.
#[derive(Debug, Eq, Ord, PartialEq, PartialOrd, Clone, Copy, Structural)]
pub struct Size {
    pub w: u32,
    pub h: u32,
}

impl Size {
    /// The number of pixels; icons are ranked by this quantity.
    pub open spec fn spec_area(self) -> nat {
        (self.w * self.h) as nat
    }

    /// Pixel area of the image. The product of two `u32` values always
    /// fits in a `u64`.
    pub fn area(&self) -> (r: u64)
        ensures
            r == self.spec_area(),
    {
        let wide: u64 = self.w as u64;
        let high: u64 = self.h as u64;
        proof {
            assert(wide * high <= 0xffff_ffffu64 * 0xffff_ffffu64) by (nonlinear_arith)
                requires
                    wide <= 0xffff_ffffu64,
                    high <= 0xffff_ffffu64,
            ;
        }
        wide * high
    }

    /// Parse dimensions like "64x64": the text before the first `x` is the
    /// width, the text between the first and second `x` (or the end) is the
    /// height, each a decimal `u32`.
    pub fn parse(s: &str) -> (r: Result<Size, ParseError>)
        ensures
            match size_parts(s@) {
                None => r matches Err(ParseError::Size(t)) && t@ == s@,
                Some(parts) => {
                    if !parses_to_u32(parts.0) {
                        r matches Err(ParseError::Int(t)) && t@ == parts.0
                    } else if !parses_to_u32(parts.1) {
                        r matches Err(ParseError::Int(t)) && t@ == parts.1
                    } else {
                        r == Ok::<Size, ParseError>(
                            Size {
                                w: digits_val(unsigned_part(parts.0)) as u32,
                                h: digits_val(unsigned_part(parts.1)) as u32,
                            },
                        )
                    }
                },
            },
    {
        let n: usize = s.unicode_len();
        let i: usize = match find_char(s, 'x') {
            Some(i) => i,
            None => {
                return Err(ParseError::Size(s.to_owned()));
            },
        };
        proof {
            crate::text::lemma_index_of_properties(s@, 'x');
        }
        let first = substring(s, 0, i);
        let rest = substring(s, i + 1, n);
        proof {
            assert(first@ =~= s@.take(i as int));
            assert(rest@ =~= s@.skip(i + 1));
        }
        let second = match find_char(rest.as_str(), 'x') {
            Some(j) => {
                proof {
                    crate::text::lemma_index_of_properties(rest@, 'x');
                }
                let cut = substring(rest.as_str(), 0, j);
                proof {
                    assert(cut@ =~= rest@.take(j as int));
                }
                cut
            },
            None => rest,
        };
        let w: u32 = match parse_u32(first.as_str()) {
            Some(w) => w,
            None => {
                return Err(ParseError::Int(first));
            },
        };
        let h: u32 = match parse_u32(second.as_str()) {
            Some(h) => h,
            None => {
                return Err(ParseError::Int(second));
            },
        };
        Ok(Size { w, h })
    }
}

/// The width and height fields of a dimension string: the text before the
/// first `x`, and the text between the first and the second `x` (or the
/// end). `None` when there is no `x` at all.
pub open spec fn size_parts(s: Seq<char>) -> Option<(Seq<char>, Seq<char>)> {
    match spec_index_of(s, 'x') {
        None => None,
        Some(i) => {
            let rest = s.skip(i + 1);
            let second = match spec_index_of(rest, 'x') {
                None => rest,
                Some(j) => rest.take(j),
            };
            Some((s.take(i), second))
        },
    }
}

impl core::str::FromStr for Size {
    type Err = ParseError;

    /// Parse dimensions like "64x64".
    fn from_str(s: &str) -> Result<Size, ParseError> {
        Size::parse(s)
    }
}

impl core::convert::From<(u32, u32)> for Size {
    /// Pack a `(width, height)` pair.
    fn from(d: (u32, u32)) -> (r: Size)
        ensures
            r == (Size { w: d.0, h: d.1 }),
    {
        Size { w: d.0, h: d.1 }
    }
}

impl vstd::std_specs::convert::FromSpecImpl<(u32, u32)> for Size {
    open spec fn obeys_from_spec() -> bool {
        true
    }

    open spec fn from_spec(d: (u32, u32)) -> Size {
        Size { w: d.0, h: d.1 }
    }
}

/// The `rel` and `href` attributes of each `link` element of the document,
/// in document order; what `scrape_link_attrs` returns.
pub uninterp spec fn link_attrs_of(html: Seq<char>) -> Seq<LinkAttrs>;

/// Relies on scraper's `Html::parse_document`, `Selector::parse` and the
/// `Select` iterator: parsing is a pure function of the markup text, and
/// `select` walks the tree in document order, yielding each `link` element,
/// of which we keep the `rel` and `href` attribute values.
#[verifier::external_body]
fn scrape_link_attrs(html: &str) -> (r: Vec<(Option<String>, Option<String>)>)
    ensures
        r.deep_view() == link_attrs_of(html@),
{
    let selector = scraper::Selector::parse("link").unwrap();
    scraper::Html::parse_document(html)
        .select(&selector)
        .map(|el| {
            let rel = el.value().attr("rel").map(|v| v.to_owned());
            let href = el.value().attr("href").map(|v| v.to_owned());
            (rel, href)
        })
        .collect()
}

/// Standard relative-URL resolution of `href` against `base`; what
/// `join_url` returns.
pub uninterp spec fn joined_url(base: Seq<char>, href: Seq<char>) -> Option<Seq<char>>;

/// Relies on `url::Url::parse` and `url::Url::join`: resolving `href`
/// against the base URL is a pure function of the two strings; `None`
/// exactly when parsing the base or joining fails.
#[verifier::external_body]
fn join_url(base: &str, href: &str) -> (r: Option<String>)
    ensures
        r.deep_view() == joined_url(base@, href@),
{
    match url::Url::parse(base) {
        Ok(b) => match b.join(href) {
            Ok(u) => Some(u.as_str().to_owned()),
            Err(_) => None,
        },
        Err(_) => None,
    }
}

/// Whether `url` parses, and if so whether it has a host and which; what
/// `url_host` returns.
pub uninterp spec fn url_host_of(url: Seq<char>) -> Option<Option<Seq<char>>>;

/// Relies on `url::Url::parse` and `url::Url::host_str`: both are pure
/// functions of the string; the outer option is whether `url` parses at
/// all, the inner whether the parsed URL has a host.
#[verifier::external_body]
fn url_host(url: &str) -> (r: Option<Option<String>>)
    ensures
        r.deep_view() == url_host_of(url@),
{
    match url::Url::parse(url) {
        Ok(u) => Some(u.host_str().map(|h| h.to_owned())),
        Err(_) => None,
    }
}

/// The characters of a byte string decoded as UTF-8; what `utf8_string`
/// returns.
pub uninterp spec fn utf8_of(bytes: Seq<u8>) -> Option<Seq<char>>;

/// Relies on `String::from_utf8` (std; vstd gives it no specification):
/// decoding is a pure function of the bytes and fails exactly on invalid
/// UTF-8.
#[verifier::external_body]
fn utf8_string(bytes: Vec<u8>) -> (r: Option<String>)
    ensures
        r.deep_view() == utf8_of(bytes@),
{
    String::from_utf8(bytes).ok()
}

/// Image container formats that get a file extension; anything else the
/// decoder accepts is carried with an empty extension.
#[derive(Debug, Clone, Copy, PartialEq, Eq, Structural)]
pub enum ImageKind {
    Png,
    Ico,
    Jpeg,
    Other,
}

/// The container format sniffed from a byte stream's magic number, `None`
/// when no known signature matches; what `sniff_kind` returns.
pub uninterp spec fn sniffed_kind(bytes: Seq<u8>) -> Option<ImageKind>;

/// Relies on `image::guess_format`: a pure function of the leading magic
/// bytes that fails when no known signature matches; in particular an empty
/// stream matches no signature.
#[verifier::external_body]
fn sniff_kind(bytes: &Vec<u8>) -> (r: Option<ImageKind>)
    ensures
        r == sniffed_kind(bytes@),
        bytes@.len() == 0 ==> r is None,
{
    match image::guess_format(bytes.as_slice()) {
        Ok(image::ImageFormat::Png) => Some(ImageKind::Png),
        Ok(image::ImageFormat::Ico) => Some(ImageKind::Ico),
        Ok(image::ImageFormat::Jpeg) => Some(ImageKind::Jpeg),
        Ok(_) => Some(ImageKind::Other),
        Err(_) => None,
    }
}

/// The RGBA pixel buffer and dimensions of a decoded image, `None` when the
/// bytes are not a supported raster image; what `decode_rgba` returns.
pub uninterp spec fn decoded_rgba(bytes: Seq<u8>) -> Option<(Seq<u8>, u32, u32)>;

/// Relies on `image::load_from_memory`, `DynamicImage::to_rgba8`,
/// `ImageBuffer::dimensions` and `ImageBuffer::into_raw`: decoding is a
/// pure function of the bytes; a decoded RGBA buffer holds exactly four
/// bytes per pixel; an empty stream decodes as no format.
#[verifier::external_body]
fn decode_rgba(bytes: &Vec<u8>) -> (r: Option<(Vec<u8>, u32, u32)>)
    ensures
        r.deep_view() == decoded_rgba(bytes@),
        r matches Some(t) ==> t.0@.len() == 4 * (t.1 as nat) * (t.2 as nat),
        bytes@.len() == 0 ==> r is None,
{
    match image::load_from_memory(bytes.as_slice()) {
        Ok(img) => {
            let rgba = img.to_rgba8();
            let (w, h) = rgba.dimensions();
            Some((rgba.into_raw(), w, h))
        },
        Err(_) => None,
    }
}

/// The extension used for each sniffed container format.
pub open spec fn kind_ext(k: ImageKind) -> Seq<char> {
    match k {
        ImageKind::Png => "png"@,
        ImageKind::Ico => "ico"@,
        ImageKind::Jpeg => "jpeg"@,
        ImageKind::Other => ""@,
    }
}

/// The extension text for a sniffed container format.
pub fn ext_of_kind(k: ImageKind) -> (r: &'static str)
    ensures
        r@ == kind_ext(k),
{
    match k {
        ImageKind::Png => "png",
        ImageKind::Ico => "ico",
        ImageKind::Jpeg => "jpeg",
        ImageKind::Other => "",
    }
}

/// A `link` element qualifies as an icon candidate: it has a `rel`
/// containing "icon" and it has an `href`.
pub open spec fn link_qualifies(l: LinkAttrs) -> bool {
    &&& l.0 matches Some(rel) && contains_seq(rel, "icon"@)
    &&& l.1 is Some
}

/// The hrefs of the qualifying links, in document order.
pub open spec fn candidate_hrefs(links: Seq<LinkAttrs>) -> Seq<Seq<char>>
    decreases links.len(),
{
    if links.len() == 0 {
        Seq::empty()
    } else {
        candidate_hrefs(links.drop_last()) + if link_qualifies(links.last()) {
            seq![links.last().1->Some_0]
        } else {
            Seq::empty()
        }
    }
}

/// An href already carries its scheme marker: it begins with `http://` or
/// `https://`. Other schemes still come out absolute, through resolution,
/// which leaves an absolute input as itself.
pub open spec fn has_scheme_marker(href: Seq<char>) -> bool {
    starts_with_seq(href, "http://"@) || starts_with_seq(href, "https://"@)
}

/// An href that already carries a scheme marker is used verbatim; anything
/// else is resolved against the page's own URL, `None` when that fails.
pub open spec fn resolve_href(base: Seq<char>, href: Seq<char>) -> Option<Seq<char>> {
    if has_scheme_marker(href) {
        Some(href)
    } else {
        joined_url(base, href)
    }
}

/// Does this href carry its own scheme marker?
pub fn looks_absolute(href: &str) -> (r: bool)
    ensures
        r == has_scheme_marker(href@),
{
    str_starts_with(href, "http://") || str_starts_with(href, "https://")
}

/// Resolve every href, dropping those that fail, keeping order.
pub open spec fn resolve_all(base: Seq<char>, hrefs: Seq<Seq<char>>) -> Seq<Seq<char>>
    decreases hrefs.len(),
{
    if hrefs.len() == 0 {
        Seq::empty()
    } else {
        resolve_all(base, hrefs.drop_last()) + match resolve_href(base, hrefs.last()) {
            Some(u) => seq![u],
            None => Seq::empty(),
        }
    }
}

/// The absolute candidate URLs scraped from a page: qualifying links,
/// resolved against the page URL, failures dropped, document order kept.
pub open spec fn resolved_candidates(base: Seq<char>, html: Seq<char>) -> Seq<Seq<char>> {
    resolve_all(base, candidate_hrefs(link_attrs_of(html)))
}

/// Resolve one candidate href against the page URL: verbatim when it
/// carries its own scheme marker, standard relative resolution otherwise.
pub fn resolve(base: &str, href: &str) -> (r: Option<String>)
    ensures
        r.deep_view() == resolve_href(base@, href@),
{
    if looks_absolute(href) {
        Some(href.to_owned())
    } else {
        join_url(base, href)
    }
}

/// Appending one link extends the candidates by its href when it qualifies.
proof fn lemma_candidate_hrefs_push(links: Seq<LinkAttrs>, l: LinkAttrs)
    ensures
        candidate_hrefs(links.push(l)) == candidate_hrefs(links) + if link_qualifies(l) {
            seq![l.1->Some_0]
        } else {
            Seq::<Seq<char>>::empty()
        },
{
    assert(links.push(l).drop_last() =~= links);
    assert(links.push(l).last() == l);
}

/// Appending one href extends the resolved list by its resolution, if any.
proof fn lemma_resolve_all_push(base: Seq<char>, hrefs: Seq<Seq<char>>, h: Seq<char>)
    ensures
        resolve_all(base, hrefs.push(h)) == resolve_all(base, hrefs) + match resolve_href(
            base,
            h,
        ) {
            Some(u) => seq![u],
            None => Seq::<Seq<char>>::empty(),
        },
{
    assert(hrefs.push(h).drop_last() =~= hrefs);
    assert(hrefs.push(h).last() == h);
}

/// A link whose `rel` does not mention "icon", or that lacks an attribute,
/// contributes nothing: removing it leaves the candidate hrefs unchanged.
pub proof fn lemma_non_icon_link_excluded(links: Seq<LinkAttrs>, k: int)
    requires
        0 <= k < links.len(),
        !link_qualifies(links[k]),
    ensures
        candidate_hrefs(links.remove(k)) == candidate_hrefs(links),
    decreases links.len(),
{
    if k == links.len() - 1 {
        assert(links.remove(k) =~= links.drop_last());
        assert(candidate_hrefs(links) == candidate_hrefs(links.drop_last()) + Seq::<
            Seq<char>,
        >::empty());
        assert(candidate_hrefs(links.drop_last()) + Seq::<Seq<char>>::empty() =~= candidate_hrefs(
            links.drop_last(),
        ));
    } else {
        let front = links.drop_last();
        assert(links.remove(k).drop_last() =~= front.remove(k));
        assert(links.remove(k).last() == links.last());
        lemma_non_icon_link_excluded(front, k);
    }
}

/// When no link qualifies, nothing resolves either.
pub proof fn lemma_no_qualifying_no_candidates(base: Seq<char>, html: Seq<char>)
    requires
        candidate_hrefs(link_attrs_of(html)).len() == 0,
    ensures
        resolved_candidates(base, html).len() == 0,
{
}

/// Scrape the candidate icon URLs out of fetched page markup: every `link`
/// element with a `rel` mentioning "icon" and an `href`, the href resolved
/// against the page URL, unresolvable ones dropped, document order kept.
pub fn scrape_body(body: &str, base: &str) -> (r: Vec<String>)
    ensures
        r.deep_view() == resolved_candidates(base@, body@),
{
    let links = scrape_link_attrs(body);
    let ghost lv = links.deep_view();
    let mut out: Vec<String> = Vec::new();
    proof {
        assert(out.deep_view() =~= Seq::<Seq<char>>::empty());
        assert(lv.take(0) =~= Seq::<LinkAttrs>::empty());
    }
    let mut i: usize = 0;
    while i < links.len()
        invariant
            lv == links.deep_view(),
            lv == link_attrs_of(body@),
            links@.len() == lv.len(),
            i <= links@.len(),
            out.deep_view() == resolve_all(base@, candidate_hrefs(lv.take(i as int))),
        decreases links@.len() - i,
    {
        let ghost prev = out.deep_view();
        let link = &links[i];
        proof {
            assert(lv[i as int] == links@[i as int].deep_view());
        }
        let cand: Option<String> = match (&link.0, &link.1) {
            (Some(rel), Some(href)) => {
                if str_contains(rel.as_str(), "icon") {
                    resolve(base, href.as_str())
                } else {
                    None
                }
            },
            _ => None,
        };
        proof {
            assert(lv.take(i + 1).drop_last() =~= lv.take(i as int));
            assert(lv.take(i + 1).last() == lv[i as int]);
            lemma_candidate_hrefs_push(lv.take(i as int), lv[i as int]);
            assert(lv.take(i as int).push(lv[i as int]) =~= lv.take(i + 1));
        }
        match cand {
            Some(u) => {
                out.push(u);
                proof {
                    assert(out.deep_view() =~= prev.push(u@));
                }
            },
            None => {},
        }
        proof {
            let ch = candidate_hrefs(lv.take(i as int));
            if link_qualifies(lv[i as int]) {
                let h = lv[i as int].1->Some_0;
                assert(candidate_hrefs(lv.take(i + 1)) == ch.push(h)) by {
                    assert(ch + seq![h] =~= ch.push(h));
                }
                lemma_resolve_all_push(base@, ch, h);
                match resolve_href(base@, h) {
                    Some(u) => {
                        assert(prev.push(u) =~= prev + seq![u]);
                    },
                    None => {
                        assert(prev + Seq::<Seq<char>>::empty() =~= prev);
                    },
                }
            } else {
                assert(candidate_hrefs(lv.take(i + 1)) == ch + Seq::<Seq<char>>::empty());
                assert(ch + Seq::<Seq<char>>::empty() =~= ch);
            }
        }
        i = i + 1;
    }
    proof {
        assert(lv.take(links@.len() as int) =~= lv);
    }
    out
}

/// Icon is the icon detected for a website.
#[derive(Debug)]
pub struct Icon {
    /// URL the image was fetched from.
    pub source: String,
    /// Name of the icon, the source URL's host. May be empty.
    pub name: String,
    /// Extension for the sniffed image container format. May be empty.
    pub ext: String,
    /// The decoded RGBA pixel buffer, four bytes per pixel.
    pub pixels: Vec<u8>,
    /// Pixel dimensions of the decoded image.
    pub size: Size,
}

/// The ranking key: an icon's pixel area.
pub open spec fn icon_area(icon: Icon) -> nat {
    icon.size.spec_area()
}

impl Icon {
    /// An icon only ever holds a buffer that decoded to its dimensions:
    /// four bytes per pixel.
    pub open spec fn wf(self) -> bool {
        self.pixels@.len() == 4 * (self.size.w as nat) * (self.size.h as nat)
    }

    /// Pixel area of the icon, the ranking key for selection.
    pub fn area(&self) -> (r: u64)
        ensures
            r == icon_area(*self),
    {
        self.size.area()
    }

    /// Decode downloaded bytes into an icon: sniff the container format for
    /// the extension, decode the pixels, and name the icon after the source
    /// URL's host. Any failure yields `None`, never an error.
    pub fn from_data(source: &str, data: &Vec<u8>) -> (r: Option<Icon>)
        ensures
            match r {
                Some(icon) => {
                    &&& sniffed_kind(data@) matches Some(k) && icon.ext@ == kind_ext(k)
                    &&& decoded_rgba(data@) matches Some(t) && icon.pixels@ == t.0 && icon.size
                        == (Size { w: t.1, h: t.2 })
                    &&& url_host_of(source@) matches Some(hostopt) && icon.name@ == (
                    match hostopt {
                        Some(h) => h,
                        None => Seq::<char>::empty(),
                    })
                    &&& icon.source@ == source@
                    &&& icon.wf()
                },
                None => {
                    ||| sniffed_kind(data@) is None
                    ||| decoded_rgba(data@) is None
                    ||| url_host_of(source@) is None
                },
            },
    {
        let kind = match sniff_kind(data) {
            Some(k) => k,
            None => {
                return None;
            },
        };
        let decoded = match decode_rgba(data) {
            Some(t) => t,
            None => {
                return None;
            },
        };
        let host = match url_host(source) {
            Some(h) => h,
            None => {
                return None;
            },
        };
        let name: String = match host {
            Some(h) => h,
            None => String::new(),
        };
        Some(
            Icon {
                source: source.to_owned(),
                name,
                ext: ext_of_kind(kind).to_owned(),
                pixels: decoded.0,
                size: Size { w: decoded.1, h: decoded.2 },
            },
        )
    }

    /// Download the image at `href` and decode it into an icon. Every
    /// failure, network or decode, yields `None`: a soft failure of this
    /// one candidate.
    pub fn download<D: Downloader>(client: &D, href: &str) -> (r: Option<Icon>)
        ensures
            r matches Some(icon) ==> icon.wf() && icon.source@ == href@ && (url_host_of(href@)
                matches Some(hostopt) && icon.name@ == (match hostopt {
                Some(h) => h,
                None => Seq::<char>::empty(),
            })),
    {
        let data = match client.get(href) {
            Ok(d) => d,
            Err(_) => {
                return None;
            },
        };
        Icon::from_data(href, &data)
    }
}

impl PartialEq for Icon {
    /// Icons are equal for dedup purposes when they have the same derived
    /// name and the same dimensions.
    fn eq(&self, other: &Icon) -> (r: bool) {
        self.name == other.name && self.size == other.size
    }
}

impl Eq for Icon {

}

impl vstd::std_specs::cmp::PartialEqSpecImpl for Icon {
    open spec fn obeys_eq_spec() -> bool {
        true
    }

    open spec fn eq_spec(&self, other: &Icon) -> bool {
        self.name@ == other.name@ && self.size == other.size
    }
}

/// The icon selected from a list: the one with the largest pixel area,
/// ties broken in favour of the earlier candidate.
pub open spec fn spec_select(icons: Seq<Icon>) -> Option<Icon>
    decreases icons.len(),
{
    if icons.len() == 0 {
        None
    } else {
        match spec_select(icons.drop_last()) {
            None => Some(icons.last()),
            Some(b) => if icon_area(icons.last()) > icon_area(b) {
                Some(icons.last())
            } else {
                Some(b)
            },
        }
    }
}

/// The selected icon is an element of the list and its area is maximal;
/// a selection exists exactly when the list is not empty.
pub proof fn lemma_spec_select_props(icons: Seq<Icon>)
    ensures
        match spec_select(icons) {
            Some(b) => icons.contains(b) && forall|j: int|
                0 <= j < icons.len() ==> icon_area(icons[j]) <= icon_area(b),
            None => icons.len() == 0,
        },
    decreases icons.len(),
{
    if icons.len() > 0 {
        let front = icons.drop_last();
        lemma_spec_select_props(front);
        match spec_select(front) {
            None => {
                assert(icons[icons.len() - 1] == icons.last());
            },
            Some(fb) => {
                let idx = choose|idx: int| 0 <= idx < front.len() && front[idx] == fb;
                assert(icons[idx] == fb);
                assert(icons[icons.len() - 1] == icons.last());
                assert forall|j: int| 0 <= j < icons.len() implies icon_area(icons[j])
                    <= icon_area(spec_select(icons)->Some_0) by {
                    if j < icons.len() - 1 {
                        assert(front[j] == icons[j]);
                    }
                }
            },
        }
    }
}

/// Selection is invariant under reordering the candidate list: two lists
/// holding the same icons, whose pixel areas are pairwise distinct, select
/// the same icon — the one with the largest area.
pub proof fn lemma_selection_order_invariant(a: Seq<Icon>, b: Seq<Icon>)
    requires
        a.to_multiset() == b.to_multiset(),
        forall|i: int, j: int| 0 <= i < j < a.len() ==> icon_area(a[i]) != icon_area(a[j]),
    ensures
        spec_select(a) == spec_select(b),
{
    a.to_multiset_ensures();
    b.to_multiset_ensures();
    lemma_spec_select_props(a);
    lemma_spec_select_props(b);
    if a.len() == 0 {
        assert(b.len() == 0);
    } else {
        assert(b.len() == a.len());
        let x = spec_select(a)->Some_0;
        let y = spec_select(b)->Some_0;
        assert(a.contains(x));
        assert(b.to_multiset().count(x) > 0);
        assert(b.contains(x));
        assert(b.contains(y));
        assert(a.to_multiset().count(y) > 0);
        assert(a.contains(y));
        let iy = choose|k: int| 0 <= k < a.len() && a[k] == y;
        assert(icon_area(a[iy]) <= icon_area(x));
        let jx = choose|k: int| 0 <= k < b.len() && b[k] == x;
        assert(icon_area(b[jx]) <= icon_area(y));
        assert(icon_area(x) == icon_area(y));
        if x != y {
            let ix = choose|k: int| 0 <= k < a.len() && a[k] == x;
            assert(ix != iy);
            if ix < iy {
                assert(icon_area(a[ix]) != icon_area(a[iy]));
            } else {
                assert(icon_area(a[iy]) != icon_area(a[ix]));
            }
        }
        assert(x == y);
    }
}

/// Select the icon with the largest pixel area; the first such icon when
/// several tie. `None` only for an empty list.
pub fn select_best(icons: Vec<Icon>) -> (r: Option<Icon>)
    ensures
        r == spec_select(icons@),
{
    if icons.len() == 0 {
        return None;
    }
    let mut best: usize = 0;
    let mut i: usize = 1;
    proof {
        assert(icons@.take(1).drop_last() =~= Seq::<Icon>::empty());
        assert(icons@.take(1).last() == icons@[0]);
        assert(spec_select(Seq::<Icon>::empty()) is None);
    }
    while i < icons.len()
        invariant
            0 < i <= icons@.len(),
            best < i,
            Some(icons@[best as int]) == spec_select(icons@.take(i as int)),
        decreases icons@.len() - i,
    {
        proof {
            assert(icons@.take(i + 1).drop_last() =~= icons@.take(i as int));
            assert(icons@.take(i + 1).last() == icons@[i as int]);
        }
        if icons[i].area() > icons[best].area() {
            best = i;
        }
        i = i + 1;
    }
    proof {
        assert(icons@.take(icons@.len() as int) =~= icons@);
    }
    let mut v = icons;
    Some(v.remove(best))
}

/// Turn the surviving icons into the engine's answer: the largest icon,
/// or `NoIconsDecoded` when every candidate failed.
pub fn pick_result(icons: Vec<Icon>) -> (r: Result<Icon, Error>)
    ensures
        icons@.len() == 0 ==> r == Err::<Icon, Error>(Error::NoIconsDecoded),
        icons@.len() > 0 ==> r == Ok::<Icon, Error>(spec_select(icons@)->Some_0),
{
    proof {
        lemma_spec_select_props(icons@);
    }
    match select_best(icons) {
        Some(icon) => Ok(icon),
        None => Err(Error::NoIconsDecoded),
    }
}

/// Inferer infers the best icon for a given URL.
pub struct Inferer<D: Downloader> {
    /// client downloads page markup and icon data.
    pub client: D,
}

impl<D: Downloader> Inferer<D> {
    /// Scrape icon candidate URLs from the markup at the given URL. Only a
    /// failure to fetch or read the page itself is an error.
    pub fn scrape(&self, url: &str) -> (r: Result<Vec<String>, Error>)
        ensures
            r matches Err(e) ==> e is FetchPage,
    {
        let bytes = match self.client.get(url) {
            Ok(b) => b,
            Err(m) => {
                return Err(Error::FetchPage(m));
            },
        };
        match utf8_string(bytes) {
            Some(body) => Ok(scrape_body(body.as_str(), url)),
            None => Err(Error::FetchPage("page body is not valid utf-8".to_owned())),
        }
    }

    /// Infer the best icon from already-fetched page markup: download every
    /// candidate, drop the failures, and pick the largest icon.
    /// `NoCandidates` is returned exactly when no link qualifies and
    /// resolves; `NoIconsDecoded` when candidates existed but none survived.
    pub fn infer_from_page(&self, body: &str, base: &str) -> (r: Result<Icon, Error>)
        ensures
            (r == Err::<Icon, Error>(Error::NoCandidates)) <==> resolved_candidates(
                base@,
                body@,
            ).len() == 0,
            r matches Ok(icon) ==> icon.wf() && resolved_candidates(base@, body@).contains(
                icon.source@,
            ),
            r matches Err(e) ==> e is NoCandidates || e is NoIconsDecoded,
    {
        let candidates = scrape_body(body, base);
        let ghost cands = resolved_candidates(base@, body@);
        if candidates.len() == 0 {
            proof {
                assert(candidates.deep_view().len() == candidates@.len());
            }
            return Err(Error::NoCandidates);
        }
        proof {
            assert(candidates.deep_view().len() == candidates@.len());
        }
        let mut icons: Vec<Icon> = Vec::new();
        let mut i: usize = 0;
        while i < candidates.len()
            invariant
                i <= candidates@.len(),
                cands == candidates.deep_view(),
                candidates@.len() == cands.len(),
                forall|j: int|
                    0 <= j < icons@.len() ==> (#[trigger] icons@[j]).wf() && cands.contains(
                        icons@[j].source@,
                    ),
            decreases candidates@.len() - i,
        {
            match Icon::download(&self.client, candidates[i].as_str()) {
                Some(icon) => {
                    proof {
                        assert(cands[i as int] == candidates@[i as int].deep_view());
                    }
                    icons.push(icon);
                },
                None => {},
            }
            i = i + 1;
        }
        proof {
            lemma_spec_select_props(icons@);
            if icons@.len() > 0 {
                let b = spec_select(icons@)->Some_0;
                let idx = choose|idx: int| 0 <= idx < icons@.len() && icons@[idx] == b;
                assert(icons@[idx].wf());
                assert(cands.contains(icons@[idx].source@));
            }
        }
        pick_result(icons)
    }

    /// Infer the best icon for a URL: fetch the page, then infer from its
    /// markup. Only the three call-level error kinds cross this boundary.
    pub fn infer(&self, url: &str) -> (r: Result<Icon, Error>)
        ensures
            r matches Ok(icon) ==> icon.wf(),
            r matches Err(e) ==> e is FetchPage || e is NoCandidates || e is NoIconsDecoded,
    {
        let bytes = match self.client.get(url) {
            Ok(b) => b,
            Err(m) => {
                return Err(Error::FetchPage(m));
            },
        };
        let body = match utf8_string(bytes) {
            Some(body) => body,
            None => {
                return Err(Error::FetchPage("page body is not valid utf-8".to_owned()));
            },
        };
        self.infer_from_page(body.as_str(), url)
    }
}

/// Infer an icon for `url` with the given network client.
pub fn infer_icon<D: Downloader>(client: D, url: &str) -> (r: Result<Icon, Error>)
    ensures
        r matches Ok(icon) ==> icon.wf(),
        r matches Err(e) ==> e is FetchPage || e is NoCandidates || e is NoIconsDecoded,
{
    let inferer = Inferer { client };
    inferer.infer(url)
}

/// The display name derived from a hostname: with one dot, the part before
/// it ("soundcloud.com" gives "soundcloud"); with two dots, the part
/// between them ("www.example.com" gives "example"); anything else has no
/// name.
pub open spec fn inferred_name(host: Seq<char>) -> Option<Seq<char>> {
    match spec_index_of(host, '.') {
        None => None,
        Some(i) => {
            if count_matches(host, '.') == 1 {
                Some(host.take(i))
            } else if count_matches(host, '.') == 2 {
                let rest = host.skip(i + 1);
                match spec_index_of(rest, '.') {
                    None => None,
                    Some(j) => Some(rest.take(j)),
                }
            } else {
                None
            }
        },
    }
}

/// Infer an application name from a URL: a short label derived from its
/// hostname.
pub fn infer_name(url: &str) -> (r: Result<String, Error>)
    ensures
        match url_host_of(url@) {
            None => r matches Err(e) && e matches Error::Parse(p) && p matches ParseError::Url(t)
                && t@ == url@,
            Some(hostopt) => match hostopt {
                None => r matches Err(e) && e matches Error::InferName { url: u, reason } && u@
                    == url@ && reason@ == "url does not include hostname"@,
                Some(host) => match inferred_name(host) {
                    Some(nm) => r matches Ok(s) && s@ == nm,
                    None => r matches Err(e) && e matches Error::InferName { url: u, reason } && u@
                        == url@ && reason@ == "url contains an uncommon hostname format"@,
                },
            },
        },
{
    let hostopt = match url_host(url) {
        None => {
            return Err(Error::Parse(ParseError::Url(url.to_owned())));
        },
        Some(h) => h,
    };
    let host = match hostopt {
        Some(h) => h,
        None => {
            return Err(
                Error::InferName {
                    url: url.to_owned(),
                    reason: "url does not include hostname".to_owned(),
                },
            );
        },
    };
    let dots = count_char(host.as_str(), '.');
    let n: usize = host.as_str().unicode_len();
    if dots == 1 || dots == 2 {
        let i = match find_char(host.as_str(), '.') {
            Some(i) => i,
            None => {
                proof {
                    crate::text::lemma_index_of_properties(host@, '.');
                    crate::text::lemma_count_zero(host@, '.');
                }
                vstd::pervasive::unreached()
            },
        };
        proof {
            crate::text::lemma_index_of_properties(host@, '.');
        }
        if dots == 1 {
            Ok(substring(host.as_str(), 0, i))
        } else {
            let rest = substring(host.as_str(), i + 1, n);
            proof {
                assert(rest@ =~= host@.skip(i + 1));
                crate::text::lemma_count_split(host@, '.', i + 1);
                assert(host@.take(i + 1).drop_last() =~= host@.take(i as int));
                assert(host@.take(i + 1).last() == host@[i as int]);
                assert forall|k: int| 0 <= k < i implies host@.take(i as int)[k] != '.' by {
                    assert(host@.take(i as int)[k] == host@[k]);
                }
                crate::text::lemma_count_zero(host@.take(i as int), '.');
                assert(count_matches(host@.take(i as int), '.') == 0);
                assert(count_matches(host@.take(i + 1), '.') == 1);
                assert(count_matches(host@.skip(i + 1), '.') == 1);
            }
            let j = match find_char(rest.as_str(), '.') {
                Some(j) => j,
                None => {
                    proof {
                        crate::text::lemma_index_of_properties(rest@, '.');
                        crate::text::lemma_count_zero(rest@, '.');
                    }
                    vstd::pervasive::unreached()
                },
            };
            proof {
                crate::text::lemma_index_of_properties(rest@, '.');
            }
            Ok(substring(rest.as_str(), 0, j))
        }
    } else {
        Err(
            Error::InferName {
                url: url.to_owned(),
                reason: "url contains an uncommon hostname format".to_owned(),
            },
        )
    }
}

} // verus!
