//! Thread links: the number of a thread, and the plain form of a link.

use crate::aoi::store::{PageStatus, Store, StoreError};
use crate::text::{
    decimal_text, find, first_occurrence, parse_u32, pop_chars, push_decimal_text, spells_u32,
    without_last_chars,
};
use crate::utils::Package;
use crate::words::{chars_of, string_of, texts};
use vstd::prelude::*;
use vstd::slice::{slice_subrange, slice_to_vec};
use vstd::string::{StringExecFns, StringSliceAdditionalSpecFns};
use vstd::utf8::encode_utf8;

verus! {

/// Why a link could not be read.
#[derive(Clone, Copy, Debug, PartialEq, Eq, Structural)]
pub enum LinkError {
    /// The link is shorter than the part that precedes the number.
    TooShort,
    /// What stands at the place of the number is none.
    NotANumber,
    /// The link is a script address without the two parameters that
    /// delimit the number, or with them in the wrong order.
    CanNotTranslate,
}

/// The length, in bytes, of what precedes the number in a thread link.
pub const LINK_HEAD: usize = 33;

/// The length, in characters, of what follows the number in a thread link.
pub const LINK_TAIL: usize = 9;

/// The number of the thread that a link names: what is left of the link
/// without its first `LINK_HEAD` bytes and its last `LINK_TAIL` characters.
pub open spec fn thread_id(link: Seq<u8>) -> Result<u32, LinkError> {
    if link.len() < LINK_HEAD {
        Err(LinkError::TooShort)
    } else {
        match spells_u32(without_last_chars(link.skip(LINK_HEAD as int), LINK_TAIL as nat)) {
            Some(id) => Ok(id),
            None => Err(LinkError::NotANumber),
        }
    }
}

/// The number of the thread that `link` names.
pub fn parse_id(link: &str) -> (r: Result<u32, LinkError>)
    ensures
        r == thread_id(link.spec_bytes()),
{
    let bytes = link.as_bytes();
    if bytes.len() < LINK_HEAD {
        return Err(LinkError::TooShort);
    }
    let mut frag = slice_to_vec(slice_subrange(bytes, LINK_HEAD, bytes.len()));
    pop_chars(&mut frag, LINK_TAIL);
    match parse_u32(frag.as_slice()) {
        Some(id) => Ok(id),
        None => Err(LinkError::NotANumber),
    }
}

/// The plain link of the thread with the given number.
pub open spec fn thread_link(tid: u32) -> Seq<char> {
    "https://www.lightnovel.us/thread-"@ + decimal_text(tid as nat) + "-1-1.html"@
}

/// What `translate_uri` makes of a link, given by its bytes: `Ok(None)`
/// where the link stays as it is, `Ok(Some(tid))` where it becomes the
/// plain link of thread `tid`.
pub open spec fn translated(uri: Seq<u8>) -> Result<Option<u32>, LinkError> {
    if first_occurrence(uri, "php".spec_bytes()) is None {
        Ok(None)
    } else {
        match (
            first_occurrence(uri, "&extra".spec_bytes()),
            first_occurrence(uri, "&tid".spec_bytes()),
        ) {
            (Some(extra), Some(tid)) => if tid + 5 > extra {
                Err(LinkError::CanNotTranslate)
            } else {
                match spells_u32(uri.subrange(tid + 5, extra)) {
                    Some(number) => Ok(Some(number)),
                    None => Err(LinkError::NotANumber),
                }
            },
            _ => Err(LinkError::CanNotTranslate),
        }
    }
}

/// The plain form of a link. A link that does not name a script is
/// returned as it is. In any other the thread number is read between the
/// parameters `&tid=` and `&extra`, and the plain link of that thread is
/// returned.
pub fn translate_uri(uri: String) -> (r: Result<String, LinkError>)
    ensures
        match translated(encode_utf8(uri@)) {
            Ok(None) => r == Ok::<String, LinkError>(uri),
            Ok(Some(tid)) => r is Ok && r->Ok_0@ == thread_link(tid),
            Err(e) => r == Err::<String, LinkError>(e),
        },
{
    let bytes = uri.as_str().as_bytes();
    if find(bytes, "php".as_bytes()).is_none() {
        return Ok(uri);
    }
    let extra = match find(bytes, "&extra".as_bytes()) {
        Some(extra) => extra,
        None => { return Err(LinkError::CanNotTranslate); },
    };
    let tid = match find(bytes, "&tid".as_bytes()) {
        Some(tid) => tid,
        None => { return Err(LinkError::CanNotTranslate); },
    };
    if tid > extra || extra - tid < 5 {
        return Err(LinkError::CanNotTranslate);
    }
    let tid: usize = tid + 5;
    let number = match parse_u32(slice_subrange(bytes, tid, extra)) {
        Some(number) => number,
        None => { return Err(LinkError::NotANumber); },
    };
    let mut link = "https://www.lightnovel.us/thread-".to_owned();
    push_decimal_text(number, &mut link);
    link.append("-1-1.html");
    Ok(link)
}

/// An entry of the forum's feed or of one of its index pages.
#[derive(Clone, Debug, PartialEq)]
pub struct FeedItem {
    pub title: String,
    pub link: String,
}

/// What a `FeedItem` holds.
pub ghost struct FeedItemView {
    pub title: Seq<char>,
    pub link: Seq<char>,
}

impl View for FeedItem {
    type V = FeedItemView;

    open spec fn view(&self) -> FeedItemView {
        FeedItemView { title: self.title@, link: self.link@ }
    }
}

/// The views of a vector of entries.
pub open spec fn item_views(items: Seq<FeedItem>) -> Seq<FeedItemView> {
    items.map_values(|item: FeedItem| item@)
}

/// Why a feed or an index page could not be worked through.
#[derive(Clone, Debug, PartialEq)]
pub enum FetchError {
    /// A link could not be read.
    Link(LinkError),
    /// A list failed.
    Store(StoreError),
}

/// A character that parts the words of a title.
pub open spec fn is_break(c: char) -> bool {
    c == '[' || c == ']' || c == '(' || c == ')' || c == '【' || c == '】' || c == ' '
}

/// The parts of a title that are complete after `title`, and the part
/// that `title` ends in. Every break closes a part, also an empty one.
pub open spec fn meme_state(title: Seq<char>) -> (Seq<Seq<char>>, Seq<char>)
    decreases title.len(),
{
    if title.len() == 0 {
        (Seq::empty(), Seq::empty())
    } else {
        let (done, current) = meme_state(title.drop_last());
        if is_break(title.last()) {
            (done.push(current), Seq::empty())
        } else {
            (done, current.push(title.last()))
        }
    }
}

/// The parts into which the breaks cut a title; between two breaks that
/// touch lies an empty part.
pub open spec fn memes(title: Seq<char>) -> Seq<Seq<char>> {
    meme_state(title).0.push(meme_state(title).1)
}

/// The parts into which the breaks cut `title`.
pub fn title_memes(title: &str) -> (parts: Vec<String>)
    ensures
        texts(parts@) == memes(title@),
{
    let chars = chars_of(title);
    let mut parts: Vec<String> = Vec::new();
    let mut start: usize = 0;
    let mut i: usize = 0;
    while i < chars.len()
        invariant
            start <= i <= chars@.len(),
            chars@ == title@,
            meme_state(chars@.subrange(0, i as int)) == (
                texts(parts@),
                chars@.subrange(start as int, i as int),
            ),
        decreases chars@.len() - i,
    {
        let ghost shorter = chars@.subrange(0, i as int);
        let ghost longer = chars@.subrange(0, i + 1);
        assert(longer.drop_last() =~= shorter);
        assert(longer.last() == chars@[i as int]);
        let c = chars[i];
        if c == '[' || c == ']' || c == '(' || c == ')' || c == '【' || c == '】' || c == ' ' {
            let ghost before = parts@;
            let part = string_of(&chars, start, i);
            parts.push(part);
            assert(texts(parts@) =~= texts(before).push(part@));
            start = i + 1;
            assert(chars@.subrange(start as int, i + 1) =~= Seq::<char>::empty());
        } else {
            assert(chars@.subrange(start as int, i + 1) =~= chars@.subrange(
                start as int,
                i as int,
            ).push(c));
        }
        i += 1;
    }
    assert(chars@.subrange(0, i as int) =~= chars@);
    let ghost before = parts@;
    let part = string_of(&chars, start, i);
    parts.push(part);
    assert(texts(parts@) =~= texts(before).push(part@));
    parts
}

/// Some part of the title is a keyword.
pub open spec fn mentions(keywords: Map<Seq<u8>, Seq<u8>>, title: Seq<char>) -> bool {
    exists|k: int|
        0 <= k < memes(title).len()
            && keywords.contains_key(encode_utf8(#[trigger] memes(title)[k]))
}

/// Whether some part of `title` is on the list of keywords.
pub fn has_keyword(keyword: &Store, title: &str) -> (r: Result<bool, StoreError>)
    ensures
        match r {
            Ok(found) => found == mentions(keyword.entries(), title@),
            Err(e) => e is Backend,
        },
{
    let parts = title_memes(title);
    let ghost all = memes(title@);
    let mut i: usize = 0;
    while i < parts.len()
        invariant
            i <= parts@.len(),
            all == memes(title@),
            all == texts(parts@),
            forall|k: int| 0 <= k < i ==> !keyword.entries().contains_key(encode_utf8(#[trigger] all[k])),
        decreases parts@.len() - i,
    {
        match keyword.contains_key(parts[i].as_str()) {
            Ok(true) => {
                assert(keyword.entries().contains_key(encode_utf8(all[i as int])));
                return Ok(true);
            },
            Ok(false) => {},
            Err(e) => { return Err(e); },
        }
        i += 1;
    }
    Ok(false)
}

/// The key under which the watcher remembers the newest thread seen.
pub open spec fn id_key() -> Seq<u8> {
    encode_utf8("update_id"@)
}

/// The newest thread seen so far, as the list of settings has it.
pub open spec fn last_seen(config: Map<Seq<u8>, Seq<u8>>) -> u32 {
    if config.contains_key(id_key()) {
        match u32::parse(config[id_key()]) {
            Some((id, _)) => id,
            None => 0,
        }
    } else {
        0
    }
}

/// The greatest thread number among the entries that is greater than
/// `id`, or zero where there is none.
pub open spec fn newest(items: Seq<FeedItemView>, id: u32) -> u32
    decreases items.len(),
{
    if items.len() == 0 {
        0
    } else {
        let rest = newest(items.drop_last(), id);
        match thread_id(encode_utf8(items.last().link)) {
            Ok(this) => if this > id && this > rest {
                this
            } else {
                rest
            },
            Err(_) => rest,
        }
    }
}

/// The watch list after the entries: every entry that is newer than
/// `id` and whose title mentions a keyword is on it as pending.
pub open spec fn watched(
    items: Seq<FeedItemView>,
    id: u32,
    keywords: Map<Seq<u8>, Seq<u8>>,
    watch: Map<Seq<u8>, Seq<u8>>,
) -> Map<Seq<u8>, Seq<u8>>
    decreases items.len(),
{
    if items.len() == 0 {
        watch
    } else {
        let rest = watched(items.drop_last(), id, keywords, watch);
        match thread_id(encode_utf8(items.last().link)) {
            Ok(this) => if this > id && mentions(keywords, items.last().title) {
                rest.insert(encode_utf8(items.last().link), PageStatus::wire(PageStatus::Pending))
            } else {
                rest
            },
            Err(_) => rest,
        }
    }
}

/// Every link of the entries names a thread.
pub open spec fn all_threads(items: Seq<FeedItemView>) -> bool {
    forall|k: int| 0 <= k < items.len() ==> thread_id(encode_utf8(#[trigger] items[k].link)) is Ok
}

/// Works through the entries of the feed: every entry that is newer than
/// the newest thread seen so far and whose title mentions a keyword goes
/// on the watch list as pending, and the newest thread of the feed is
/// remembered, or zero where the feed holds nothing new.
pub fn fetch_rss(
    items: &Vec<FeedItem>,
    keyword: &Store,
    watch_list: &mut Store,
    config: &mut Store,
) -> (r: Result<(), FetchError>)
    ensures
        match r {
            Ok(()) => all_threads(item_views(items@)) && final(watch_list).entries() == watched(
                item_views(items@),
                last_seen(old(config).entries()),
                keyword.entries(),
                old(watch_list).entries(),
            ) && final(config).entries() == old(config).entries().insert(
                id_key(),
                u32::wire(newest(item_views(items@), last_seen(old(config).entries()))),
            ),
            Err(FetchError::Link(_)) => !all_threads(item_views(items@))
                && final(config).entries() == old(config).entries(),
            Err(FetchError::Store(_)) => true,
        },
{
    let id: u32 = match config.get::<u32>("update_id") {
        Ok(Some(id)) => id,
        Ok(None) => 0,
        Err(e) => { return Err(FetchError::Store(e)); },
    };
    let ghost all = item_views(items@);
    let mut new_id: u32 = 0;
    let mut i: usize = 0;
    while i < items.len()
        invariant
            i <= items@.len(),
            all == item_views(items@),
            id == last_seen(old(config).entries()),
            config.entries() == old(config).entries(),
            all_threads(all.subrange(0, i as int)),
            new_id == newest(all.subrange(0, i as int), id),
            watch_list.entries() == watched(
                all.subrange(0, i as int),
                id,
                keyword.entries(),
                old(watch_list).entries(),
            ),
        decreases items@.len() - i,
    {
        let ghost shorter = all.subrange(0, i as int);
        let ghost longer = all.subrange(0, i + 1);
        assert(longer.drop_last() =~= shorter);
        assert(longer.last() == items@[i as int]@);
        let item = &items[i];
        let this_id = match parse_id(item.link.as_str()) {
            Ok(this_id) => this_id,
            Err(e) => {
                assert(all[i as int] == items@[i as int]@);
                assert(!(thread_id(encode_utf8(all[i as int].link)) is Ok));
                return Err(FetchError::Link(e));
            },
        };
        if this_id > id {
            if this_id > new_id {
                new_id = this_id;
            }
            match has_keyword(keyword, item.title.as_str()) {
                Ok(true) => {
                    let status = PageStatus::Pending;
                    match watch_list.insert(item.link.as_str(), &status) {
                        Ok(()) => {},
                        Err(e) => { return Err(FetchError::Store(e)); },
                    }
                },
                Ok(false) => {},
                Err(e) => { return Err(FetchError::Store(e)); },
            }
        }
        assert forall|k: int| 0 <= k < longer.len() implies thread_id(
            encode_utf8(#[trigger] longer[k].link),
        ) is Ok by {
            if k < i {
                assert(longer[k] == shorter[k]);
            }
        }
        i += 1;
    }
    assert(all.subrange(0, i as int) =~= all);
    match config.insert("update_id", &new_id) {
        Ok(()) => Ok(()),
        Err(e) => Err(FetchError::Store(e)),
    }
}

/// What working through one entry of an index page makes of the watch
/// list: a pending page is completed, all else stays.
pub open spec fn reported(watch: Map<Seq<u8>, Seq<u8>>, link: Seq<char>) -> Map<Seq<u8>, Seq<u8>> {
    if is_pending(watch, link) {
        watch.insert(encode_utf8(link), PageStatus::wire(PageStatus::Complete))
    } else {
        watch
    }
}

/// The page with the given link is on the watch list as pending.
pub open spec fn is_pending(watch: Map<Seq<u8>, Seq<u8>>, link: Seq<char>) -> bool {
    watch.contains_key(encode_utf8(link))
        && (PageStatus::parse(watch[encode_utf8(link)]) matches Some(
        (status, _),
    ) && status == PageStatus::Pending)
}

/// The plain form of a link, where it has one.
pub open spec fn plain_link(link: Seq<char>) -> Option<Seq<char>> {
    match translated(encode_utf8(link)) {
        Ok(Some(tid)) => Some(thread_link(tid)),
        Ok(None) => Some(link),
        Err(_) => None,
    }
}

/// Works through one entry of an index page: its link is put in plain
/// form, and where that page is on the watch list as pending it is
/// completed and the entry with the plain link is handed back to be
/// announced.
pub fn check_entry(entry: FeedItem, watch_list: &mut Store) -> (r: Result<
    Option<FeedItem>,
    FetchError,
>)
    ensures
        match r {
            Ok(Some(notice)) => (plain_link(entry@.link) matches Some(link) && is_pending(
                old(watch_list).entries(),
                link,
            ) && notice@ == (FeedItemView { title: entry@.title, link }))
                && final(watch_list).entries() == swept_one(
                old(watch_list).entries(),
                entry@.link,
            ),
            Ok(None) => (plain_link(entry@.link) matches Some(link) && !is_pending(
                old(watch_list).entries(),
                link,
            )) && final(watch_list).entries() == old(watch_list).entries(),
            Err(FetchError::Link(e)) => translated(encode_utf8(entry@.link)) == Err::<
                Option<u32>,
                LinkError,
            >(e) && final(watch_list).entries() == old(watch_list).entries(),
            Err(FetchError::Store(_)) => plain_link(entry@.link) is Some,
        },
{
    let FeedItem { title, link } = entry;
    let link = match translate_uri(link) {
        Ok(link) => link,
        Err(e) => { return Err(FetchError::Link(e)); },
    };
    match watch_list.get::<PageStatus>(link.as_str()) {
        Ok(Some(PageStatus::Pending)) => {
            let new_val = PageStatus::Complete;
            match watch_list.insert(link.as_str(), &new_val) {
                Ok(()) => Ok(Some(FeedItem { title, link })),
                Err(e) => Err(FetchError::Store(e)),
            }
        },
        Ok(_) => Ok(None),
        Err(e) => Err(FetchError::Store(e)),
    }
}

/// The watch list after one entry of an index page.
pub open spec fn swept_one(watch: Map<Seq<u8>, Seq<u8>>, link: Seq<char>) -> Map<Seq<u8>, Seq<u8>> {
    match plain_link(link) {
        Some(plain) => reported(watch, plain),
        None => watch,
    }
}

/// The watch list after the entries of an index page.
pub open spec fn swept(entries: Seq<FeedItemView>, watch: Map<Seq<u8>, Seq<u8>>) -> Map<
    Seq<u8>,
    Seq<u8>,
>
    decreases entries.len(),
{
    if entries.len() == 0 {
        watch
    } else {
        swept_one(swept(entries.drop_last(), watch), entries.last().link)
    }
}

/// The entries of an index page to announce, each with its plain link:
/// those whose page was pending when their turn came.
pub open spec fn announced(entries: Seq<FeedItemView>, watch: Map<Seq<u8>, Seq<u8>>) -> Seq<
    FeedItemView,
>
    decreases entries.len(),
{
    if entries.len() == 0 {
        Seq::empty()
    } else {
        match plain_link(entries.last().link) {
            Some(link) => if is_pending(swept(entries.drop_last(), watch), link) {
                announced(entries.drop_last(), watch).push(
                    FeedItemView { title: entries.last().title, link },
                )
            } else {
                announced(entries.drop_last(), watch)
            },
            None => announced(entries.drop_last(), watch),
        }
    }
}

/// Every link of the entries has a plain form.
pub open spec fn all_plain(entries: Seq<FeedItemView>) -> bool {
    forall|k: int| 0 <= k < entries.len() ==> plain_link(#[trigger] entries[k].link) is Some
}

/// Works through the entries of an index page, the first of them first,
/// and gives those to announce. The first entry that fails ends the work.
pub fn fetch_index(entries: Vec<FeedItem>, watch_list: &mut Store) -> (r: Result<
    Vec<FeedItem>,
    FetchError,
>)
    ensures
        match r {
            Ok(notices) => all_plain(item_views(entries@)) && item_views(notices@) == announced(
                item_views(entries@),
                old(watch_list).entries(),
            ) && final(watch_list).entries() == swept(
                item_views(entries@),
                old(watch_list).entries(),
            ),
            Err(FetchError::Link(_)) => !all_plain(item_views(entries@)),
            Err(FetchError::Store(_)) => true,
        },
{
    let ghost all = item_views(entries@);
    let mut notices: Vec<FeedItem> = Vec::new();
    for entry in it: entries
        invariant
            all == item_views(it.seq()),
            all_plain(all.subrange(0, it.index() as int)),
            item_views(notices@) == announced(
                all.subrange(0, it.index() as int),
                old(watch_list).entries(),
            ),
            watch_list.entries() == swept(
                all.subrange(0, it.index() as int),
                old(watch_list).entries(),
            ),
    {
        let ghost shorter = all.subrange(0, it.index() as int);
        let ghost longer = all.subrange(0, it.index() + 1);
        assert(longer.drop_last() =~= shorter);
        assert(longer.last() == entry@);
        assert(all[it.index() as int] == entry@);
        match check_entry(entry, watch_list) {
            Ok(Some(notice)) => {
                let ghost before = notices@;
                notices.push(notice);
                assert(item_views(notices@) =~= item_views(before).push(notice@));
            },
            Ok(None) => {},
            Err(e) => {
                return Err(e);
            },
        }
        assert forall|k: int| 0 <= k < longer.len() implies plain_link(
            #[trigger] longer[k].link,
        ) is Some by {
            if k < it.index() {
                assert(longer[k] == shorter[k]);
            }
        }
    }
    assert(all.subrange(0, all.len() as int) =~= all);
    Ok(notices)
}

} // verus!
