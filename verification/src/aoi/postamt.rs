//! What the watcher says to the mesh: the answers to the commands on its
//! lists.

use crate::aoi::request::{
    slice_texts, spelled, Item, ItemView, Request, RequestView, UsageError,
};
use crate::aoi::store::{key_texts, Store, StoreError, WatchTarget};
use crate::plugin::store::{lists_keys, no_entries};
use crate::utils::{
    exit_frame, exit_sentinel, frame, parse_frame, FrameError, Package, ReadEx, ReadResult, Status,
};
use crate::words::{chars_of, split_whitespace, string_of, texts, words_of};
use crate::yukikaze::Ask;
use vstd::prelude::*;
use vstd::string::StringExecFns;
use vstd::utf8::encode_utf8;

verus! {

/// The name under which the watcher signs its posts.
pub open spec fn node_name() -> Seq<char> {
    "青い"@
}

/// The encoding of the post that carries `msg`, signed by the watcher.
pub open spec fn post_body(msg: Seq<char>) -> Seq<u8> {
    crate::yukikaze::Request::wire(
        crate::yukikaze::request::RequestView::Post { msg, node: node_name() },
    )
}

/// The frame of the post that carries `msg`, signed by the watcher.
pub fn yukikaze_msg(msg: String) -> (r: Result<Vec<u8>, FrameError>)
    ensures
        match r {
            Ok(pkg) => post_body(msg@).len() <= u32::MAX && pkg@ == frame(post_body(msg@)),
            Err(e) => post_body(msg@).len() > u32::MAX && e == FrameError::TooLong,
        },
{
    let req = crate::yukikaze::Request::post(msg, "青い".to_owned());
    req.package()
}

/// The lines of a list of keys: for each two spaces, a hyphen, the key
/// and a line break.
pub open spec fn key_lines(keys: Seq<Seq<char>>) -> Seq<char>
    decreases keys.len(),
{
    if keys.len() == 0 {
        Seq::empty()
    } else {
        key_lines(keys.drop_last()) + "  -"@ + keys.last() + "\n"@
    }
}

/// A text without the second of two line breaks that it ends in.
pub open spec fn trimmed(text: Seq<char>) -> Seq<char> {
    if text.len() >= 2 && text[text.len() - 1] == '\n' && text[text.len() - 2] == '\n' {
        text.drop_last()
    } else {
        text
    }
}

/// A list of keys as text: the heading `top`, a line break, and the
/// lines of the keys.
pub open spec fn keys_text(keys: Seq<Seq<char>>, top: Seq<char>) -> Seq<char> {
    trimmed(top + "\n"@ + key_lines(keys))
}

/// The text of a list of keys under the heading `top`.
pub fn keys_message(keys: &Vec<String>, top: String) -> (text: String)
    ensures
        text@ == keys_text(texts(keys@), top@),
{
    let ghost all = texts(keys@);
    let ghost heading = top@ + "\n"@;
    let mut top = top;
    top.append("\n");
    let mut i: usize = 0;
    while i < keys.len()
        invariant
            i <= keys@.len(),
            all == texts(keys@),
            top@ == heading + key_lines(all.subrange(0, i as int)),
        decreases keys@.len() - i,
    {
        let ghost shorter = all.subrange(0, i as int);
        let ghost longer = all.subrange(0, i + 1);
        assert(longer.drop_last() =~= shorter);
        assert(longer.last() == keys@[i as int]@);
        top.append("  -");
        top.append(keys[i].as_str());
        top.append("\n");
        assert(top@ =~= heading + key_lines(longer));
        i += 1;
    }
    assert(all.subrange(0, i as int) =~= all);
    let chars = chars_of(top.as_str());
    let n = chars.len();
    if n >= 2 && chars[n - 1] == '\n' && chars[n - 2] == '\n' {
        let text = string_of(&chars, 0, n - 1);
        assert(text@ =~= top@.drop_last());
        text
    } else {
        top
    }
}

/// The frame of the post that lists `keys` under the heading `top`.
pub fn format_keys(keys: Vec<String>, top: String) -> (r: Result<Vec<u8>, FrameError>)
    ensures
        match r {
            Ok(pkg) => post_body(keys_text(texts(keys@), top@)).len() <= u32::MAX && pkg@ == frame(
                post_body(keys_text(texts(keys@), top@)),
            ),
            Err(e) => post_body(keys_text(texts(keys@), top@)).len() > u32::MAX && e
                == FrameError::TooLong,
        },
{
    yukikaze_msg(keys_message(&keys, top))
}

/// Why a session of the watcher ended in an error.
#[derive(Clone, Debug, PartialEq)]
pub enum HandleError {
    /// A frame could not be read, or the answer could not be framed.
    Frame(FrameError),
    /// The words of the command spell none.
    Usage(UsageError),
    /// A list failed.
    Store(StoreError),
}

/// The words of the command that an `Ask` with the text `msg` carries:
/// the name of the program, then the words of the text.
pub open spec fn asked(msg: Seq<char>) -> Seq<Seq<char>> {
    words_of("aoi "@ + msg)
}

/// The list after every name was put on it, the first name first.
pub open spec fn all_inserted(entries: Map<Seq<u8>, Seq<u8>>, names: Seq<Seq<char>>) -> Map<
    Seq<u8>,
    Seq<u8>,
>
    decreases names.len(),
{
    if names.len() == 0 {
        entries
    } else {
        all_inserted(entries, names.drop_last()).insert(
            encode_utf8(names.last()),
            WatchTarget::wire(WatchTarget {  }),
        )
    }
}

/// The list after every name was taken off it.
pub open spec fn all_removed(entries: Map<Seq<u8>, Seq<u8>>, names: Seq<Seq<char>>) -> Map<
    Seq<u8>,
    Seq<u8>,
>
    decreases names.len(),
{
    if names.len() == 0 {
        entries
    } else {
        all_removed(entries, names.drop_last()).remove(encode_utf8(names.last()))
    }
}

/// What a command makes of the list that it is about.
pub open spec fn changed(entries: Map<Seq<u8>, Seq<u8>>, item: ItemView) -> Map<Seq<u8>, Seq<u8>> {
    match item {
        ItemView::Add { name } => all_inserted(entries, name),
        ItemView::Remove { name } => all_removed(entries, name),
        ItemView::List => entries,
        ItemView::Clear => no_entries(),
    }
}

/// The heading of the answer to a command.
pub open spec fn heading(item: ItemView) -> Seq<char> {
    match item {
        ItemView::Add { .. } => "key added"@,
        ItemView::Remove { .. } => "key removed"@,
        ItemView::List => "list key"@,
        ItemView::Clear => "key list cleard"@,
    }
}

/// `text` is the answer to the command `item` on a list that is `after`
/// once the command was carried out: for `Clear` the heading alone, for
/// every other command the heading and the keys of the list.
pub open spec fn answer(after: Map<Seq<u8>, Seq<u8>>, item: ItemView, text: Seq<char>) -> bool {
    if item is Clear {
        text == heading(item)
    } else {
        exists|raw: Seq<Seq<u8>>|
            #![trigger key_texts(raw)]
            lists_keys(after, raw) && (key_texts(raw) matches Some(keys) && text == keys_text(
                keys,
                heading(item),
            ))
    }
}

/// Carries out what a command says on the list that it is about, and
/// gives the frame of the answer.
pub fn carry_out(tree: &mut Store, item: Item) -> (r: Result<Vec<u8>, HandleError>)
    ensures
        match r {
            Ok(pkg) => final(tree).entries() == changed(old(tree).entries(), item@)
                && exists|text: Seq<char>|
                #![trigger post_body(text)]
                answer(final(tree).entries(), item@, text) && post_body(text).len() <= u32::MAX
                    && pkg@ == frame(post_body(text)),
            Err(HandleError::Frame(e)) => e == FrameError::TooLong && final(tree).entries()
                == changed(old(tree).entries(), item@) && exists|text: Seq<char>|
                #![trigger post_body(text)]
                answer(final(tree).entries(), item@, text) && post_body(text).len() > u32::MAX,
            Err(HandleError::Store(_)) => true,
            Err(HandleError::Usage(_)) => false,
        },
{
    let ghost before = tree.entries();
    let adds = match item {
        Item::Add { .. } => true,
        _ => false,
    };
    let top = match item {
        Item::Add { name } | Item::Remove { name } => {
            let ghost names = texts(name@);
            let mut i: usize = 0;
            while i < name.len()
                invariant
                    i <= name@.len(),
                    names == texts(name@),
                    tree.entries() == (if adds {
                        all_inserted(before, names.subrange(0, i as int))
                    } else {
                        all_removed(before, names.subrange(0, i as int))
                    }),
                decreases name@.len() - i,
            {
                let ghost shorter = names.subrange(0, i as int);
                let ghost longer = names.subrange(0, i + 1);
                assert(longer.drop_last() =~= shorter);
                assert(longer.last() == name@[i as int]@);
                let done = if adds {
                    let val = WatchTarget {  };
                    tree.insert(name[i].as_str(), &val)
                } else {
                    tree.remove(name[i].as_str())
                };
                match done {
                    Ok(()) => {},
                    Err(e) => { return Err(HandleError::Store(e)); },
                }
                i += 1;
            }
            assert(names.subrange(0, i as int) =~= names);
            if adds {
                "key added"
            } else {
                "key removed"
            }
        },
        Item::Clear => {
            match tree.clear() {
                Ok(()) => {},
                Err(e) => { return Err(HandleError::Store(e)); },
            }
            let msg = "key list cleard".to_owned();
            let ghost text = msg@;
            return match yukikaze_msg(msg) {
                Ok(pkg) => {
                    assert(answer(tree.entries(), item@, text) && pkg@ == frame(post_body(text)));
                    Ok(pkg)
                },
                Err(e) => {
                    assert(answer(tree.entries(), item@, text) && post_body(text).len()
                        > u32::MAX);
                    Err(HandleError::Frame(e))
                },
            };
        },
        Item::List => "list key",
    };
    let keys = match tree.keys() {
        Ok(keys) => keys,
        Err(e) => { return Err(HandleError::Store(e)); },
    };
    let ghost text = keys_text(texts(keys@), top@);
    match format_keys(keys, top.to_owned()) {
        Ok(pkg) => {
            assert(answer(tree.entries(), item@, text) && pkg@ == frame(post_body(text)));
            Ok(pkg)
        },
        Err(e) => {
            assert(answer(tree.entries(), item@, text) && post_body(text).len() > u32::MAX);
            Err(HandleError::Frame(e))
        },
    }
}

/// The string slices of a vector of strings.
fn borrowed(words: &Vec<String>) -> (refs: Vec<&str>)
    ensures
        slice_texts(refs@) == texts(words@),
{
    let mut refs: Vec<&str> = Vec::new();
    let mut i: usize = 0;
    while i < words.len()
        invariant
            i <= words@.len(),
            refs@.len() == i,
            forall|k: int| 0 <= k < i ==> (#[trigger] refs@[k])@ == words@[k]@,
        decreases words@.len() - i,
    {
        refs.push(words[i].as_str());
        i += 1;
    }
    assert(slice_texts(refs@) =~= texts(words@));
    refs
}

/// The command that the text of an `Ask` spells.
pub fn command(msg: &str) -> (r: Result<Request, UsageError>)
    ensures
        match spelled(asked(msg@)) {
            Ok(request) => r is Ok && r->Ok_0@ == request,
            Err(e) => r == Err::<Request, UsageError>(e),
        },
{
    let mut head = "aoi ".to_owned();
    head.append(msg);
    let args = split_whitespace(head.as_str());
    Request::from_iter_safe(borrowed(&args))
}

/// What the watcher does with the command in one `Ask`, as a relation
/// between the two lists before and after, the bytes appended to the
/// output, and the result. A command changes only the list that it is
/// about, and its answer is followed by the exit sentinel.
pub open spec fn served(
    msg: Seq<char>,
    keyword: Map<Seq<u8>, Seq<u8>>,
    keyword_after: Map<Seq<u8>, Seq<u8>>,
    page: Map<Seq<u8>, Seq<u8>>,
    page_after: Map<Seq<u8>, Seq<u8>>,
    reply: Seq<u8>,
    r: Result<Status, HandleError>,
) -> bool {
    match spelled(asked(msg)) {
        Err(e) => r == Err::<Status, HandleError>(HandleError::Usage(e)) && reply.len() == 0
            && keyword_after == keyword && page_after == page,
        Ok(RequestView::Keyword(item)) => page_after == page && carried(
            item,
            keyword,
            keyword_after,
            reply,
            r,
        ),
        Ok(RequestView::Page(item)) => keyword_after == keyword && carried(
            item,
            page,
            page_after,
            reply,
            r,
        ),
    }
}

/// What carrying out a command on its list comes to. Where the list can
/// be worked on, it is changed as the command says and the answer is
/// sent, followed by the exit sentinel, and the session ends; an answer
/// too long for a frame is an error instead and writes nothing. An error
/// of the list writes nothing.
pub open spec fn carried(
    item: ItemView,
    list: Map<Seq<u8>, Seq<u8>>,
    list_after: Map<Seq<u8>, Seq<u8>>,
    reply: Seq<u8>,
    r: Result<Status, HandleError>,
) -> bool {
    match r {
        Ok(status) => status == Status::Exit && list_after == changed(list, item) && exists|text: Seq<char>|
            #![trigger post_body(text)]
            answer(list_after, item, text) && post_body(text).len() <= u32::MAX && reply == frame(
                post_body(text),
            ) + exit_sentinel(),
        Err(HandleError::Frame(e)) => e == FrameError::TooLong && reply.len() == 0 && list_after
            == changed(list, item) && exists|text: Seq<char>|
            #![trigger post_body(text)]
            answer(list_after, item, text) && post_body(text).len() > u32::MAX,
        Err(HandleError::Store(_)) => reply.len() == 0,
        Err(HandleError::Usage(_)) => false,
    }
}

/// One session of the watcher: reads the next frame, and unless it is
/// the exit sentinel carries out the command in it, appends the framed
/// answer and the exit sentinel to `out`, and ends the session.
pub fn handle<R: ReadEx>(
    stream: &mut R,
    keyword: &mut Store,
    page: &mut Store,
    out: &mut Vec<u8>,
) -> (r: Result<Status, HandleError>)
    ensures
        old(out)@.is_prefix_of(final(out)@),
        match parse_frame(old(stream).pending()) {
            Err(e) => r == Err::<Status, HandleError>(HandleError::Frame(e))
                && final(keyword).entries() == old(keyword).entries()
                && final(page).entries() == old(page).entries()
                && final(out)@ == old(out)@,
            Ok(None) => r == Ok::<Status, HandleError>(Status::Exit) && final(keyword).entries()
                == old(keyword).entries() && final(page).entries() == old(page).entries()
                && final(out)@ == old(out)@,
            Ok(Some((body, n))) => final(stream).pending() == old(stream).pending().skip(n)
                && match Ask::parse(body) {
                Some((msg, _)) => served(
                    msg,
                    old(keyword).entries(),
                    final(keyword).entries(),
                    old(page).entries(),
                    final(page).entries(),
                    final(out)@.skip(old(out)@.len() as int),
                    r,
                ),
                None => r == Err::<Status, HandleError>(HandleError::Frame(FrameError::Malformed))
                    && final(keyword).entries() == old(keyword).entries()
                    && final(page).entries() == old(page).entries()
                    && final(out)@ == old(out)@,
            },
        },
{
    assert(out@.skip(out@.len() as int) =~= Seq::<u8>::empty());
    let ask = match stream.unpack::<Ask>() {
        Ok(ReadResult::Continue(ask)) => ask,
        Ok(ReadResult::Exit) => { return Ok(Status::Exit); },
        Err(e) => { return Err(HandleError::Frame(e)); },
    };
    let req = match command(ask.0.as_str()) {
        Ok(req) => req,
        Err(e) => { return Err(HandleError::Usage(e)); },
    };
    let on_keywords = match req {
        Request::Keyword(_) => true,
        Request::Page(_) => false,
    };
    let item = req.inner();
    let done = if on_keywords {
        carry_out(keyword, item)
    } else {
        carry_out(page, item)
    };
    match done {
        Ok(resp) => {
            let ghost text = choose|text: Seq<char>|
                #![trigger post_body(text)]
                answer(if on_keywords {
                    keyword.entries()
                } else {
                    page.entries()
                }, item@, text) && post_body(text).len() <= u32::MAX && resp@ == frame(
                    post_body(text),
                );
            out.extend_from_slice(resp.as_slice());
            let exit = exit_frame();
            out.extend_from_slice(exit.as_slice());
            assert(out@ =~= old(out)@ + (resp@ + exit_sentinel()));
            assert(out@.skip(old(out)@.len() as int) =~= frame(post_body(text)) + exit_sentinel());
            Ok(Status::Exit)
        },
        Err(e) => Err(e),
    }
}

} // verus!
