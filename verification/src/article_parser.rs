//! Parsing of page records out of markup events, and the parsed result set.

pub mod events;
pub mod hashing;
pub mod links;
pub mod merge;
pub mod pool;
pub mod repair;

use vstd::prelude::*;

verus! {

use vstd::string::StringSliceAdditionalSpecFns;
use vstd::utf8::encode_utf8;

/// A non-redirect article: its title, the title's 64-bit hash, and the
/// hashes of the articles its body links to, in order of appearance
/// (duplicates preserved).
#[derive(Debug, PartialEq, Clone)]
pub struct ContentPage {
    pub title: String,
    pub title_hash: u64,
    pub links: Vec<u64>,
}

/// Abstract value of a [`ContentPage`]: the title as UTF-8 bytes, its hash,
/// and the link hashes.
pub struct ContentPageView {
    pub title: Seq<u8>,
    pub title_hash: u64,
    pub links: Seq<u64>,
}

impl View for ContentPage {
    type V = ContentPageView;

    open spec fn view(&self) -> ContentPageView {
        ContentPageView {
            title: encode_utf8(self.title@),
            title_hash: self.title_hash,
            links: self.links@,
        }
    }
}

/// An accumulator of parsed records: content pages in the order they were
/// completed, and a mapping from each redirect page's title hash to the
/// title hash of its target.
pub struct ArticleParser {
    content_pages: Vec<ContentPage>,
    redirects: std::collections::HashMap<u64, u64>,
}

/// Abstract value of an [`ArticleParser`].
pub struct ArticleParserView {
    pub content_pages: Seq<ContentPageView>,
    pub redirects: Map<u64, u64>,
}

impl View for ArticleParser {
    type V = ArticleParserView;

    closed spec fn view(&self) -> ArticleParserView {
        ArticleParserView {
            content_pages: self.content_pages@.map_values(|p: ContentPage| p@),
            redirects: self.redirects@,
        }
    }
}

impl ArticleParser {
    /// A parser with no pages and no redirects.
    pub fn new() -> (r: Self)
        ensures
            r@.content_pages == Seq::<ContentPageView>::empty(),
            r@.redirects == Map::<u64, u64>::empty(),
    {
        let r = Self {
            content_pages: Vec::new(),
            redirects: std::collections::HashMap::new(),
        };
        proof {
            assert(r@.content_pages =~= Seq::<ContentPageView>::empty());
        }
        r
    }

    /// The content pages parsed so far.
    pub fn content_pages(&self) -> (r: &Vec<ContentPage>)
        ensures
            r@.map_values(|p: ContentPage| p@) == self@.content_pages,
    {
        &self.content_pages
    }

    /// The redirect mapping parsed so far.
    pub fn redirects(&self) -> (r: &std::collections::HashMap<u64, u64>)
        ensures
            r@ == self@.redirects,
    {
        &self.redirects
    }

    /// The title hasher (see [`hashing::spec_title_hash`]).
    pub fn get_title_hash(title: &str) -> (h: u64)
        ensures
            h == hashing::spec_title_hash(title.spec_bytes()),
    {
        hashing::hash_title_bytes(title.as_bytes())
    }

    /// The link extractor (see [`links::spec_links`]): the ordered hashes of
    /// every wiki-link target in an article body.
    pub fn get_links(content: &str) -> (r: Vec<u64>)
        ensures
            r@ == links::spec_links(content.spec_bytes()),
    {
        links::extract_links(content.as_bytes())
    }

    /// Append one content page (a test and bench helper; the parser itself
    /// adds pages as it reads page elements).
    pub fn push_content_page(&mut self, page: ContentPage)
        ensures
            final(self)@.content_pages == old(self)@.content_pages.push(page@),
            final(self)@.redirects == old(self)@.redirects,
    {
        self.content_pages.push(page);
        proof {
            assert(self@.content_pages =~= old(self)@.content_pages.push(page@));
        }
    }

    /// Record one redirect entry (a test and bench helper).
    pub fn insert_redirect(&mut self, from: u64, to: u64)
        ensures
            final(self)@.content_pages == old(self)@.content_pages,
            final(self)@.redirects == old(self)@.redirects.insert(from, to),
    {
        self.redirects.insert(from, to);
    }
}

/// Byte name of the page element.
pub open spec fn page_tag() -> Seq<u8> {
    "page".spec_bytes()
}

/// Byte name of the title element (also the redirect marker's attribute
/// that carries the target title).
pub open spec fn title_tag() -> Seq<u8> {
    "title".spec_bytes()
}

/// Byte name of the text element.
pub open spec fn text_tag() -> Seq<u8> {
    "text".spec_bytes()
}

/// Byte name of the redirect marker.
pub open spec fn redirect_tag() -> Seq<u8> {
    "redirect".spec_bytes()
}

/// Whether an element name equals the given ASCII tag.
fn tag_matches(name: &Vec<u8>, tag: &str) -> (r: bool)
    ensures
        r == (name@ == tag.spec_bytes()),
{
    let tb: &[u8] = tag.as_bytes();
    if name.len() != tb.len() {
        return false;
    }
    let mut i: usize = 0;
    while i < tb.len()
        invariant
            i <= tb@.len(),
            name@.len() == tb@.len(),
            tb@ == tag.spec_bytes(),
            forall|k: int| 0 <= k < i ==> name@[k] == tb@[k],
        decreases tb@.len() - i,
    {
        if name[i] != tb[i] {
            return false;
        }
        i = i + 1;
    }
    proof {
        assert(name@ =~= tag.spec_bytes());
    }
    true
}

/// The value of the first attribute whose key equals `key`, searching from
/// position `i`.
pub open spec fn spec_find_attr(attrs: Seq<(Vec<u8>, Vec<u8>)>, key: Seq<u8>, i: int) -> Option<
    Seq<u8>,
>
    decreases attrs.len() - i,
{
    if i < 0 || i >= attrs.len() {
        None
    } else if attrs[i].0@ == key {
        Some(attrs[i].1@)
    } else {
        spec_find_attr(attrs, key, i + 1)
    }
}

/// The value of the first attribute with the given ASCII key, if any.
fn find_attr(attrs: &Vec<(Vec<u8>, Vec<u8>)>, key: &str) -> (r: Option<Vec<u8>>)
    ensures
        match r {
            Option::Some(v) => spec_find_attr(attrs@, key.spec_bytes(), 0) == Some(v@),
            Option::None => spec_find_attr(attrs@, key.spec_bytes(), 0) is None,
        },
{
    let mut i: usize = 0;
    loop
        invariant
            i <= attrs@.len(),
            spec_find_attr(attrs@, key.spec_bytes(), 0) == spec_find_attr(
                attrs@,
                key.spec_bytes(),
                i as int,
            ),
        decreases attrs@.len() - i,
    {
        if i >= attrs.len() {
            assert(spec_find_attr(attrs@, key.spec_bytes(), i as int) is None);
            return None;
        }
        if tag_matches(&attrs[i].0, key) {
            let mut v: Vec<u8> = Vec::new();
            let src = &attrs[i].1;
            let mut k: usize = 0;
            while k < src.len()
                invariant
                    k <= src@.len(),
                    src == attrs@[i as int].1,
                    v@ =~= src@.take(k as int),
                decreases src@.len() - k,
            {
                v.push(src[k]);
                k = k + 1;
            }
            proof {
                assert(v@ =~= attrs@[i as int].1@);
            }
            return Some(v);
        }
        assert(spec_find_attr(attrs@, key.spec_bytes(), i as int) == spec_find_attr(
            attrs@,
            key.spec_bytes(),
            i as int + 1,
        ));
        i = i + 1;
    }
}

/// The title bytes with each `_` rewritten to a space, the source system's
/// convention for URL-style titles.
pub open spec fn spec_replace_underscores(b: Seq<u8>) -> Seq<u8> {
    b.map_values(
        |c: u8|
            if c == 95 {
                32u8
            } else {
                c
            },
    )
}

fn replace_underscores(b: &Vec<u8>) -> (r: Vec<u8>)
    ensures
        r@ == spec_replace_underscores(b@),
{
    let mut r: Vec<u8> = Vec::new();
    let mut i: usize = 0;
    while i < b.len()
        invariant
            i <= b@.len(),
            r@.len() == i,
            forall|k: int|
                0 <= k < i ==> r@[k] == (if b@[k] == 95 {
                    32u8
                } else {
                    b@[k]
                }),
        decreases b@.len() - i,
    {
        let c = b[i];
        r.push(
            if c == 95 {
                32
            } else {
                c
            },
        );
        i = i + 1;
    }
    proof {
        assert(r@ =~= spec_replace_underscores(b@));
    }
    r
}

/// Where the scanner stands inside a page element.
#[derive(PartialEq, Eq, Structural, Clone, Copy, Debug)]
pub enum PageState {
    InTitle,
    InText,
    Out,
}

/// What has been gathered of the current page element.
struct PageAccum {
    state: PageState,
    title_buf: Vec<u8>,
    text_buf: Vec<u8>,
    redirect: Option<Vec<u8>>,
}

/// Abstract value of the page accumulator: the unescaped title bytes and
/// body bytes gathered so far, and the redirect target if one was seen.
pub struct PageAccumView {
    pub state: PageState,
    pub title_buf: Seq<u8>,
    pub text_buf: Seq<u8>,
    pub redirect: Option<Seq<u8>>,
}

impl View for PageAccum {
    type V = PageAccumView;

    closed spec fn view(&self) -> PageAccumView {
        PageAccumView {
            state: self.state,
            title_buf: self.title_buf@,
            text_buf: self.text_buf@,
            redirect: match self.redirect {
                Some(v) => Some(v@),
                None => None,
            },
        }
    }
}

/// Whether the scanner is between pages or inside a page element.
pub enum ScanMode {
    Top,
    InPage(PageAccumView),
}

enum Mode {
    Top,
    InPage(PageAccum),
}

impl View for Mode {
    type V = ScanMode;

    closed spec fn view(&self) -> ScanMode {
        match self {
            Mode::Top => ScanMode::Top,
            Mode::InPage(acc) => ScanMode::InPage(acc@),
        }
    }
}

/// The title hash of a title given as raw UTF-8 bytes: the bytes are decoded
/// lossily to text, as the committed title string is.
pub open spec fn title_hash_of_bytes(b: Seq<u8>) -> u64 {
    hashing::spec_title_hash(encode_utf8(events::lossy_chars_of(b)))
}

/// The record committed when a page element closes: a redirect entry when a
/// redirect target was captured, else a content page with the title, its
/// hash, and the links extracted from the body text.
pub open spec fn commit_page(v: ArticleParserView, acc: PageAccumView) -> ArticleParserView {
    let tb = spec_replace_underscores(acc.title_buf);
    match acc.redirect {
        Some(rb) => ArticleParserView {
            content_pages: v.content_pages,
            redirects: v.redirects.insert(title_hash_of_bytes(tb), title_hash_of_bytes(rb)),
        },
        None => ArticleParserView {
            content_pages: v.content_pages.push(
                ContentPageView {
                    title: encode_utf8(events::lossy_chars_of(tb)),
                    title_hash: title_hash_of_bytes(tb),
                    links: links::spec_links(acc.text_buf),
                },
            ),
            redirects: v.redirects,
        },
    }
}

/// A fresh page accumulator.
pub open spec fn empty_accum() -> PageAccumView {
    PageAccumView {
        state: PageState::Out,
        title_buf: Seq::empty(),
        text_buf: Seq::empty(),
        redirect: None,
    }
}

/// The unescaped form of a character-data fragment, or the fragment itself
/// when it cannot be unescaped: a malformed fragment is kept as it stands
/// rather than ending the run.
pub open spec fn unescape_or_raw(raw: Seq<u8>) -> Seq<u8> {
    match events::unescaped_of(raw) {
        Some(b) => b,
        None => raw,
    }
}

/// The byte form `&name;` of a reference, as the unescaper reads it.
pub open spec fn reference_bytes(name: Seq<u8>) -> Seq<u8> {
    seq![38u8] + name + seq![59u8]
}

/// Character data appended to the buffer of the scanner's current state;
/// data outside a title or text element is ignored.
pub open spec fn accum_data(acc: PageAccumView, b: Seq<u8>) -> PageAccumView {
    match acc.state {
        PageState::InTitle => PageAccumView {
            state: acc.state,
            title_buf: acc.title_buf + b,
            text_buf: acc.text_buf,
            redirect: acc.redirect,
        },
        PageState::InText => PageAccumView {
            state: acc.state,
            title_buf: acc.title_buf,
            text_buf: acc.text_buf + b,
            redirect: acc.redirect,
        },
        PageState::Out => acc,
    }
}

/// One step of the page scanner: the result set and mode after one event,
/// and whether the scan stops.
pub open spec fn feed_spec(v: ArticleParserView, m: ScanMode, ev: events::RawEvent) -> (
    ArticleParserView,
    ScanMode,
    bool,
) {
    match m {
        ScanMode::Top => match ev {
            events::RawEvent::Start { name } => if name@ == page_tag() {
                (v, ScanMode::InPage(empty_accum()), false)
            } else {
                (v, ScanMode::Top, false)
            },
            events::RawEvent::EndOfInput => (v, ScanMode::Top, true),
            _ => (v, ScanMode::Top, false),
        },
        ScanMode::InPage(acc) => match ev {
            events::RawEvent::Start { name } => if name@ == title_tag() {
                (
                    v,
                    ScanMode::InPage(
                        PageAccumView {
                            state: PageState::InTitle,
                            title_buf: Seq::empty(),
                            text_buf: acc.text_buf,
                            redirect: acc.redirect,
                        },
                    ),
                    false,
                )
            } else if name@ == text_tag() {
                (
                    v,
                    ScanMode::InPage(
                        PageAccumView {
                            state: PageState::InText,
                            title_buf: acc.title_buf,
                            text_buf: Seq::empty(),
                            redirect: acc.redirect,
                        },
                    ),
                    false,
                )
            } else {
                (v, ScanMode::InPage(acc), false)
            },
            events::RawEvent::Empty { name, attrs } => if name@ == redirect_tag() {
                match spec_find_attr(attrs@, title_tag(), 0) {
                    Some(val) => (
                        v,
                        ScanMode::InPage(
                            PageAccumView {
                                state: acc.state,
                                title_buf: acc.title_buf,
                                text_buf: acc.text_buf,
                                redirect: Some(val),
                            },
                        ),
                        false,
                    ),
                    None => (v, ScanMode::InPage(acc), false),
                }
            } else {
                (v, ScanMode::InPage(acc), false)
            },
            events::RawEvent::Text { raw } => (
                v,
                ScanMode::InPage(accum_data(acc, unescape_or_raw(raw@))),
                false,
            ),
            events::RawEvent::Reference { name } => (
                v,
                ScanMode::InPage(accum_data(acc, unescape_or_raw(reference_bytes(name@)))),
                false,
            ),
            events::RawEvent::End { name } => if name@ == page_tag() {
                (commit_page(v, acc), ScanMode::Top, false)
            } else {
                (
                    v,
                    ScanMode::InPage(
                        PageAccumView {
                            state: PageState::Out,
                            title_buf: acc.title_buf,
                            text_buf: acc.text_buf,
                            redirect: acc.redirect,
                        },
                    ),
                    false,
                )
            },
            events::RawEvent::EndOfInput => (commit_page(v, acc), ScanMode::Top, true),
            events::RawEvent::Other => (v, ScanMode::InPage(acc), false),
        },
    }
}

/// Whether the consumed byte offset has crossed the ceiling, when one is
/// set.
pub open spec fn bound_exceeded(pos: u64, read_until: Option<u64>) -> bool {
    match read_until {
        Some(ru) => pos > ru,
        None => false,
    }
}

/// The page scanner run over a sequence of located events: each event feeds
/// the scanner in turn, the byte ceiling is checked between pages, and the
/// run stops on end of input, on the ceiling, or when the events run out.
pub open spec fn run_spec(
    v: ArticleParserView,
    m: ScanMode,
    pos: u64,
    events: Seq<events::LocatedEvent>,
    read_until: Option<u64>,
) -> ArticleParserView
    decreases events.len(),
{
    if (m is Top) && bound_exceeded(pos, read_until) {
        v
    } else if events.len() == 0 {
        v
    } else {
        let le = events[0];
        let s = feed_spec(v, m, le.event);
        if s.2 {
            s.0
        } else {
            run_spec(s.0, s.1, le.offset, events.drop_first(), read_until)
        }
    }
}

impl ArticleParser {
    /// Commit the current page accumulator as one record.
    fn commit(&mut self, acc: PageAccum)
        ensures
            final(self)@ == commit_page(old(self)@, acc@),
    {
        let tb = replace_underscores(&acc.title_buf);
        let title_s = events::bytes_to_string(&tb);
        let th = Self::get_title_hash(title_s.as_str());
        match acc.redirect {
            Some(rb) => {
                let rs = events::bytes_to_string(&rb);
                let rh = Self::get_title_hash(rs.as_str());
                self.redirects.insert(th, rh);
            },
            None => {
                let lv = links::extract_links(acc.text_buf.as_slice());
                self.content_pages.push(ContentPage { title: title_s, title_hash: th, links: lv });
                proof {
                    assert(self@.content_pages =~= commit_page(old(self)@, acc@).content_pages);
                }
            },
        }
    }

}

/// An owned copy of a byte fragment.
fn copy_bytes(src: &Vec<u8>) -> (r: Vec<u8>)
    ensures
        r@ == src@,
{
    let mut r: Vec<u8> = Vec::new();
    let mut i: usize = 0;
    while i < src.len()
        invariant
            i <= src@.len(),
            r@ =~= src@.take(i as int),
        decreases src@.len() - i,
    {
        r.push(src[i]);
        i = i + 1;
    }
    proof {
        assert(r@ =~= src@);
    }
    r
}

/// The byte form `&name;` of a reference (see [`reference_bytes`]).
fn reference_vec(name: &Vec<u8>) -> (r: Vec<u8>)
    ensures
        r@ == reference_bytes(name@),
{
    let mut r: Vec<u8> = Vec::new();
    r.push(38);
    let mut i: usize = 0;
    while i < name.len()
        invariant
            i <= name@.len(),
            r@ =~= seq![38u8] + name@.take(i as int),
        decreases name@.len() - i,
    {
        r.push(name[i]);
        i = i + 1;
    }
    r.push(59);
    proof {
        assert(r@ =~= reference_bytes(name@));
    }
    r
}

/// Append one character-data fragment, unescaped where possible, to the
/// buffer of the scanner's current state (see [`accum_data`]).
fn accum_fragment(acc: &mut PageAccum, raw: &Vec<u8>)
    ensures
        final(acc)@ == accum_data(old(acc)@, unescape_or_raw(raw@)),
{
    let in_title = matches!(acc.state, PageState::InTitle);
    let in_text = matches!(acc.state, PageState::InText);
    if in_title || in_text {
        let mut piece = match events::unescape_text(raw) {
            Ok(b) => b,
            Err(_) => copy_bytes(raw),
        };
        if in_title {
            acc.title_buf.append(&mut piece);
        } else {
            acc.text_buf.append(&mut piece);
        }
    }
}

impl ArticleParser {
    /// Feed one event to the scanner (see [`feed_spec`]).
    fn feed(&mut self, mode: Mode, ev: &events::RawEvent) -> (r: (Mode, bool))
        ensures
            feed_spec(old(self)@, mode@, *ev) == (final(self)@, r.0@, r.1),
    {
        match mode {
            Mode::Top => match ev {
                events::RawEvent::Start { name } => if tag_matches(name, "page") {
                    (
                        Mode::InPage(
                            PageAccum {
                                state: PageState::Out,
                                title_buf: Vec::new(),
                                text_buf: Vec::new(),
                                redirect: None,
                            },
                        ),
                        false,
                    )
                } else {
                    (Mode::Top, false)
                },
                events::RawEvent::EndOfInput => (Mode::Top, true),
                _ => (Mode::Top, false),
            },
            Mode::InPage(mut acc) => match ev {
                events::RawEvent::Start { name } => {
                    if tag_matches(name, "title") {
                        acc.state = PageState::InTitle;
                        acc.title_buf = Vec::new();
                    } else if tag_matches(name, "text") {
                        acc.state = PageState::InText;
                        acc.text_buf = Vec::new();
                    }
                    (Mode::InPage(acc), false)
                },
                events::RawEvent::Empty { name, attrs } => {
                    if tag_matches(name, "redirect") {
                        match find_attr(attrs, "title") {
                            Some(v) => {
                                acc.redirect = Some(v);
                            },
                            None => {},
                        }
                    }
                    (Mode::InPage(acc), false)
                },
                events::RawEvent::Text { raw } => {
                    accum_fragment(&mut acc, raw);
                    (Mode::InPage(acc), false)
                },
                events::RawEvent::Reference { name } => {
                    let rb = reference_vec(name);
                    accum_fragment(&mut acc, &rb);
                    (Mode::InPage(acc), false)
                },
                events::RawEvent::End { name } => {
                    if tag_matches(name, "page") {
                        self.commit(acc);
                        (Mode::Top, false)
                    } else {
                        acc.state = PageState::Out;
                        (Mode::InPage(acc), false)
                    }
                },
                events::RawEvent::EndOfInput => {
                    self.commit(acc);
                    (Mode::Top, true)
                },
                events::RawEvent::Other => (Mode::InPage(acc), false),
            },
        }
    }

    /// Run the page scanner over a sequence of located events
    /// (see [`run_spec`]), reporting progress to `progress` at most once per
    /// [`UPDATE_FREQ`] consumed bytes, between pages.
    pub fn parse_events<P: ProgressSink>(
        &mut self,
        events: &Vec<events::LocatedEvent>,
        read_until: Option<u64>,
        progress: &mut P,
    )
        ensures
            final(self)@ == run_spec(old(self)@, ScanMode::Top, 0, events@, read_until),
    {
        let mut mode = Mode::Top;
        let mut pos: u64 = 0;
        let mut idx: usize = 0;
        let mut last_update: u64 = 0;
        proof {
            assert(events@.skip(0) =~= events@);
        }
        loop
            invariant
                idx <= events@.len(),
                run_spec(old(self)@, ScanMode::Top, 0, events@, read_until) == run_spec(
                    self@,
                    mode@,
                    pos,
                    events@.skip(idx as int),
                    read_until,
                ),
            decreases events@.len() - idx,
        {
            let is_top = matches!(mode, Mode::Top);
            if is_top {
                match read_until {
                    Some(ru) => if pos > ru {
                        assert(run_spec(self@, mode@, pos, events@.skip(idx as int), read_until)
                            == self@);
                        return ;
                    },
                    None => {},
                }
            }
            if idx >= events.len() {
                assert(events@.skip(idx as int).len() == 0);
                return ;
            }
            let ghost self1 = self@;
            let ghost mode1 = mode@;
            let le = &events[idx];
            proof {
                assert(events@.skip(idx as int)[0] == events@[idx as int]);
            }
            let out = self.feed(mode, &le.event);
            let stop = out.1;
            mode = out.0;
            proof {
                assert(events@.skip(idx as int).drop_first() =~= events@.skip(idx as int + 1));
            }
            if stop {
                assert(run_spec(self1, mode1, pos, events@.skip(idx as int), read_until) == self@);
                return ;
            }
            pos = le.offset;
            idx = idx + 1;
            if matches!(mode, Mode::Top) {
                if UPDATE_FREQ < pos && pos - UPDATE_FREQ > last_update {
                    progress.report(pos, read_until);
                    last_update = pos;
                }
            }
        }
    }
}

/// A sink for progress reports, called with the byte offset consumed so far
/// and the byte ceiling, if one is set.  Reports are made at most once per
/// [`UPDATE_FREQ`] consumed bytes, between pages.
pub trait ProgressSink {
    /// Take note of the parser's progress.
    fn report(&mut self, offset: u64, limit: Option<u64>);
}

/// A sink that discards every report.
pub struct NoProgress;

impl ProgressSink for NoProgress {
    fn report(&mut self, _offset: u64, _limit: Option<u64>) {
    }
}

/// How many bytes are consumed between two progress reports.
pub const UPDATE_FREQ: u64 = 1024 * 1024 * 500;

impl ArticleParser {
    /// Parse page records out of markup bytes: run the page scanner of
    /// [`run_spec`] over the byte slice's event stream ([`events_of`]),
    /// between pages stopping once the consumed offset passes `read_until`
    /// (when set), and reporting progress to `progress` at most once per
    /// [`UPDATE_FREQ`] bytes.  Damaged input is never fatal: a reader fault
    /// acts as end of the input, and a fragment that cannot be unescaped is
    /// kept as it stands.
    ///
    /// [`events_of`]: events::events_of
    pub fn parse_xml<P: ProgressSink>(
        &mut self,
        content: &[u8],
        read_until: Option<u64>,
        progress: &mut P,
    )
        ensures
            final(self)@ == run_spec(
                old(self)@,
                ScanMode::Top,
                0,
                events::events_of(content@),
                read_until,
            ),
    {
        let located = events::read_all_events(content);
        self.parse_events(&located, read_until, progress);
    }
}

} // verus!
