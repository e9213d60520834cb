use kosmos::aoi::parser::{
    check_entry, fetch_index, fetch_rss, has_keyword, title_memes, FeedItem, FetchError, LinkError,
};
use kosmos::aoi::postamt::{
    carry_out, command, format_keys, handle, keys_message, yukikaze_msg, HandleError,
};
use kosmos::aoi::request::{Item, Request, UsageError};
use kosmos::aoi::store::{PageStatus, Store, StoreError, WatchTarget};
use kosmos::utils::{Cursor, FrameError, Package, ReadEx, ReadResult, Status};
use kosmos::yukikaze::bot::{action, Updates};
use kosmos::yukikaze::postamt::{incoming, Route};
use kosmos::yukikaze::Ask;

fn fresh(name: &str) -> Store {
    let mut store = Store::open(&format!("/tmp/kosmos_test/aoi/{}", name)).unwrap();
    store.clear().unwrap();
    store
}

fn posted(frame: Vec<u8>) -> (String, String) {
    match Cursor::new(frame).expect::<kosmos::yukikaze::Request>().unwrap() {
        kosmos::yukikaze::Request::Post { msg, node } => (msg, node),
    }
}

fn item(title: &str, link: &str) -> FeedItem {
    FeedItem {
        title: title.to_owned(),
        link: link.to_owned(),
    }
}

#[test]
fn a_list_keeps_typed_values_under_texts() {
    let mut store = fresh("typed");
    store.insert("page", &PageStatus::Pending).unwrap();
    store.insert("word", &WatchTarget {}).unwrap();
    assert_eq!(store.get::<PageStatus>("page"), Ok(Some(PageStatus::Pending)));
    assert_eq!(store.get::<PageStatus>("none"), Ok(None));
    assert_eq!(store.get::<PageStatus>("word"), Err(StoreError::Malformed));
    assert_eq!(store.get::<WatchTarget>("word"), Ok(Some(WatchTarget {})));
    assert_eq!(store.contains_key("page"), Ok(true));
    assert_eq!(store.contains_key("pag"), Ok(false));
    assert_eq!(store.keys(), Ok(vec!["page".to_owned(), "word".to_owned()]));
    store.insert("page", &PageStatus::Complete).unwrap();
    assert_eq!(store.get::<PageStatus>("page"), Ok(Some(PageStatus::Complete)));
    store.remove("page").unwrap();
    assert_eq!(store.keys(), Ok(vec!["word".to_owned()]));
    store.clear().unwrap();
    assert_eq!(store.keys(), Ok(vec![]));
}

#[test]
fn page_status_is_encoded_as_bincode_writes_it() {
    let mut pending = Vec::new();
    PageStatus::Pending.write(&mut pending);
    assert_eq!(pending, bincode::serialize(&0u32).unwrap());
    let mut complete = Vec::new();
    PageStatus::Complete.write(&mut complete);
    assert_eq!(complete, bincode::serialize(&1u32).unwrap());
    assert_eq!(PageStatus::read(&complete), Some((PageStatus::Complete, 4)));
    assert_eq!(PageStatus::read(&[2, 0, 0, 0]), None);
    let mut nothing = Vec::new();
    WatchTarget {}.write(&mut nothing);
    assert!(nothing.is_empty());
}

#[test]
fn keys_are_listed_under_a_heading() {
    let keys = vec!["a".to_owned(), "b c".to_owned()];
    assert_eq!(keys_message(&keys, "list key".to_owned()), "list key\n  -a\n  -b c\n");
    assert_eq!(keys_message(&vec![], "list key".to_owned()), "list key\n");
    assert_eq!(keys_message(&vec![], "top\n".to_owned()), "top\n");
    assert_eq!(keys_message(&vec!["x\n".to_owned()], "t".to_owned()), "t\n  -x\n");
    assert_eq!(
        posted(format_keys(keys, "key added".to_owned()).unwrap()),
        ("key added\n  -a\n  -b c\n".to_owned(), "青い".to_owned())
    );
    assert_eq!(
        posted(yukikaze_msg("hello".to_owned()).unwrap()),
        ("hello".to_owned(), "青い".to_owned())
    );
}

#[test]
fn the_text_of_an_ask_spells_a_command() {
    assert_eq!(
        command("keyword add test"),
        Ok(Request::Keyword(Item::Add {
            name: vec!["test".to_owned()]
        }))
    );
    assert_eq!(command("  page\u{3000}list "), Ok(Request::Page(Item::List)));
    assert_eq!(command(""), Err(UsageError::MissingList));
    assert_eq!(command("keyword add -x"), Err(UsageError::UnexpectedOption));
}

#[test]
fn commands_are_carried_out_on_their_list() {
    let mut list = fresh("carry");
    let add = Item::Add {
        name: vec!["b".to_owned(), "a".to_owned()],
    };
    assert_eq!(
        posted(carry_out(&mut list, add).unwrap()).0,
        "key added\n  -a\n  -b\n"
    );
    assert_eq!(posted(carry_out(&mut list, Item::List).unwrap()).0, "list key\n  -a\n  -b\n");
    let remove = Item::Remove {
        name: vec!["a".to_owned(), "zz".to_owned()],
    };
    assert_eq!(posted(carry_out(&mut list, remove).unwrap()).0, "key removed\n  -b\n");
    assert_eq!(posted(carry_out(&mut list, Item::Clear).unwrap()).0, "key list cleard");
    assert_eq!(list.keys(), Ok(vec![]));
    assert_eq!(posted(carry_out(&mut list, Item::List).unwrap()).0, "list key\n");
}

#[test]
fn a_session_of_the_watcher_answers_once_and_exits() {
    let mut keyword = fresh("session_keyword");
    let mut page = fresh("session_page");
    let mut stream = Cursor::new(Ask::new("keyword add 魔法 sword".to_owned()).package().unwrap());
    let mut out = Vec::new();
    assert_eq!(handle(&mut stream, &mut keyword, &mut page, &mut out), Ok(Status::Exit));
    assert_eq!(&out[out.len() - 4..], &[0, 0, 0, 0]);
    let mut answer = Cursor::new(out);
    match answer.unpack::<kosmos::yukikaze::Request>().unwrap() {
        ReadResult::Continue(kosmos::yukikaze::Request::Post { msg, node }) => {
            assert_eq!(msg, "key added\n  -sword\n  -魔法\n");
            assert_eq!(node, "青い");
        }
        ReadResult::Exit => panic!("no answer"),
    }
    assert!(matches!(
        answer.unpack::<kosmos::yukikaze::Request>(),
        Ok(ReadResult::Exit)
    ));
    assert_eq!(keyword.keys(), Ok(vec!["sword".to_owned(), "魔法".to_owned()]));
    assert_eq!(page.keys(), Ok(vec![]));
    let mut out = Vec::new();
    let mut bad = Cursor::new(Ask::new("novel list".to_owned()).package().unwrap());
    assert_eq!(
        handle(&mut bad, &mut keyword, &mut page, &mut out),
        Err(HandleError::Usage(UsageError::UnknownList))
    );
    let mut exit = Cursor::new(vec![0, 0, 0, 0]);
    assert_eq!(handle(&mut exit, &mut keyword, &mut page, &mut out), Ok(Status::Exit));
    let mut cut = Cursor::new(vec![0, 0]);
    assert_eq!(
        handle(&mut cut, &mut keyword, &mut page, &mut out),
        Err(HandleError::Frame(FrameError::ShortHeader))
    );
    assert!(out.is_empty());
}

#[test]
fn titles_are_cut_at_brackets_and_blanks() {
    assert_eq!(title_memes("[a](b) c"), vec!["", "a", "", "b", "", "c"]);
    assert_eq!(title_memes("【魔法】剣 x"), vec!["", "魔法", "剣", "x"]);
    assert_eq!(title_memes(""), vec![""]);
    assert_eq!(title_memes("plain"), vec!["plain"]);
    let mut keyword = fresh("memes");
    keyword.insert("魔法", &WatchTarget {}).unwrap();
    assert_eq!(has_keyword(&keyword, "【魔法】剣"), Ok(true));
    assert_eq!(has_keyword(&keyword, "魔法剣"), Ok(false));
    assert_eq!(has_keyword(&keyword, ""), Ok(false));
    keyword.insert("", &WatchTarget {}).unwrap();
    assert_eq!(has_keyword(&keyword, "anything at all"), Ok(false));
    assert_eq!(has_keyword(&keyword, "two  blanks"), Ok(true));
}

#[test]
fn the_feed_puts_new_mentions_on_the_watch_list() {
    let mut keyword = fresh("feed_keyword");
    let mut watch = fresh("feed_watch");
    let mut config = fresh("feed_config");
    keyword.insert("sword", &WatchTarget {}).unwrap();
    config.insert("update_id", &100u32).unwrap();
    let old = "https://www.lightnovel.us/thread-100-1-1.html";
    let new = "https://www.lightnovel.us/thread-101-1-1.html";
    let newer = "https://www.lightnovel.us/thread-205-1-1.html";
    let items = vec![
        item("[sword] old", old),
        item("(sword) new", new),
        item("shield newer", newer),
    ];
    assert_eq!(fetch_rss(&items, &keyword, &mut watch, &mut config), Ok(()));
    assert_eq!(watch.keys(), Ok(vec![new.to_owned()]));
    assert_eq!(watch.get::<PageStatus>(new), Ok(Some(PageStatus::Pending)));
    assert_eq!(config.get::<u32>("update_id"), Ok(Some(205)));
    assert_eq!(fetch_rss(&items, &keyword, &mut watch, &mut config), Ok(()));
    assert_eq!(config.get::<u32>("update_id"), Ok(Some(0)));
    let broken = vec![item("sword", "nowhere")];
    assert_eq!(
        fetch_rss(&broken, &keyword, &mut watch, &mut config),
        Err(FetchError::Link(LinkError::TooShort))
    );
    assert_eq!(config.get::<u32>("update_id"), Ok(Some(0)));
}

#[test]
fn an_index_page_completes_pending_pages() {
    let mut watch = fresh("index");
    let plain = "https://www.lightnovel.us/thread-7-1-1.html";
    watch.insert(plain, &PageStatus::Pending).unwrap();
    let script = "forum.php?mod=viewthread&tid=7&extra=page";
    let entries = vec![
        item("first", script),
        item("again", plain),
        item("other", "https://www.lightnovel.us/thread-8-1-1.html"),
    ];
    assert_eq!(fetch_index(entries, &mut watch), Ok(vec![item("first", plain)]));
    assert_eq!(watch.get::<PageStatus>(plain), Ok(Some(PageStatus::Complete)));
    assert_eq!(check_entry(item("t", plain), &mut watch), Ok(None));
    assert_eq!(
        check_entry(item("t", "x.php"), &mut watch),
        Err(FetchError::Link(LinkError::CanNotTranslate))
    );
    assert_eq!(
        fetch_index(vec![item("t", "x.php?&tid=a&extra")], &mut watch),
        Err(FetchError::Link(LinkError::NotANumber))
    );
}

#[test]
fn the_first_update_stands_for_the_backlog() {
    let mut seen = Updates::new();
    assert_eq!(seen, Updates { update_id: 0, first: true });
    let got = seen.get_updates(vec![(5, Some("old")), (6, Some("new")), (6, Some("twice"))]);
    assert_eq!(got, vec!["new"]);
    assert_eq!(seen, Updates { update_id: 6, first: false });
    let got = seen.get_updates(vec![(4, Some("late")), (7, None), (9, Some("a")), (8, Some("b"))]);
    assert_eq!(got, vec!["a"]);
    assert_eq!(seen.update_id, 9);
    assert!(!seen.is_first());
    let mut fresh = Updates::new();
    assert!(fresh.is_first());
    assert!(!fresh.is_first());
    assert_eq!(fresh.get_updates(vec![(1, Some("x"))]), vec!["x"]);
    let mut negative = Updates::new();
    assert_eq!(negative.get_updates(vec![(-1, Some("x")), (0, Some("y"))]), Vec::<&str>::new());
    assert!(negative.first);
}

#[test]
fn method_addresses_hold_the_token() {
    assert_eq!(
        action("123:abc", "getUpdates"),
        "https://api.telegram.org/bot123:abc/getUpdates"
    );
}

#[test]
fn a_text_from_the_chat_is_routed_by_its_second_part() {
    match incoming("list github_release") {
        Route::Remote { ask, target } => {
            assert_eq!(ask.0, "list");
            assert_eq!(target, "github_release");
        }
        other => panic!("{:?}", other),
    }
    match incoming("status yukikaze") {
        Route::Local(cmd) => assert_eq!(cmd, "status"),
        other => panic!("{:?}", other),
    }
    match incoming("add a/b aoi") {
        Route::Remote { ask, target } => {
            assert_eq!(ask.0, "add");
            assert_eq!(target, "a/b aoi");
        }
        other => panic!("{:?}", other),
    }
    assert!(matches!(incoming("alone"), Route::Ignore));
    assert!(matches!(incoming(""), Route::Ignore));
    match incoming(" x") {
        Route::Remote { ask, target } => {
            assert_eq!(ask.0, "");
            assert_eq!(target, "x");
        }
        other => panic!("{:?}", other),
    }
}

#[test]
fn the_bridge_reads_posts_as_text() {
    let post = kosmos::yukikaze::Request::post("m".to_owned(), "n".to_owned());
    let mut session = post.package().unwrap();
    session.extend_from_slice(&[0, 0, 0, 0]);
    let mut stream = Cursor::new(session);
    match kosmos::yukikaze::postamt::handle(&mut stream) {
        Ok(ReadResult::Continue(text)) => assert_eq!(text, "m\n\n------\nn - 雪風Dタイプ"),
        other => panic!("{:?}", other.map(|_| ())),
    }
    assert!(matches!(
        kosmos::yukikaze::postamt::handle(&mut stream),
        Ok(ReadResult::Exit)
    ));
    assert_eq!(
        kosmos::yukikaze::postamt::handle(&mut stream).err(),
        Some(FrameError::ShortHeader)
    );
}
